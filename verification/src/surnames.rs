//! The table of common Chinese surnames (single and compound) used to spot
//! unlabeled names in resume text; only the first char of each entry matters.

use vstd::prelude::*;

verus! {

/// Part 0 of the table of first chars of common surnames.
pub open spec fn surname_initials_0(c: char) -> bool {
    match c {
        '丁' | '万' | '不' | '丑' | '世' | '丘' | '丙' | '业' | '丛' | '东' |
        '严' | '中' | '丰' | '丹' | '么' | '义' | '之' | '乌' | '乐' | '乔' |
        '乘' | '乙' | '乜' | '九' | '习' | '书' | '买' | '乾' | '于' | '云' |
        '亓' | '五' | '井' | '亢' | '亥' | '京' | '仁' | '仆' | '仇' | '仉' |
        '介' | '仍' | '从' | '仙' | '仝' | '代' | '令' | '以' | '仪' | '仰' => true,
        _ => false,
    }
}

fn in_surname_initials_0(c: char) -> (r: bool)
    ensures
        r == surname_initials_0(c),
{
    match c {
        '丁' | '万' | '不' | '丑' | '世' | '丘' | '丙' | '业' | '丛' | '东' |
        '严' | '中' | '丰' | '丹' | '么' | '义' | '之' | '乌' | '乐' | '乔' |
        '乘' | '乙' | '乜' | '九' | '习' | '书' | '买' | '乾' | '于' | '云' |
        '亓' | '五' | '井' | '亢' | '亥' | '京' | '仁' | '仆' | '仇' | '仉' |
        '介' | '仍' | '从' | '仙' | '仝' | '代' | '令' | '以' | '仪' | '仰' => true,
        _ => false,
    }
}

/// Part 1 of the table of first chars of common surnames.
pub open spec fn surname_initials_1(c: char) -> bool {
    match c {
        '仲' | '仵' | '任' | '伊' | '伍' | '伏' | '休' | '伟' | '伦' | '伯' |
        '似' | '但' | '位' | '何' | '佘' | '余' | '佛' | '佟' | '佴' | '佼' |
        '侍' | '依' | '侨' | '侯' | '俎' | '保' | '俞' | '俟' | '信' | '修' |
        '候' | '倪' | '偶' | '傅' | '储' | '僧' | '僪' | '允' | '元' | '充' |
        '兆' | '光' | '党' | '全' | '公' | '六' | '兰' | '关' | '兴' | '其' => true,
        _ => false,
    }
}

fn in_surname_initials_1(c: char) -> (r: bool)
    ensures
        r == surname_initials_1(c),
{
    match c {
        '仲' | '仵' | '任' | '伊' | '伍' | '伏' | '休' | '伟' | '伦' | '伯' |
        '似' | '但' | '位' | '何' | '佘' | '余' | '佛' | '佟' | '佴' | '佼' |
        '侍' | '依' | '侨' | '侯' | '俎' | '保' | '俞' | '俟' | '信' | '修' |
        '候' | '倪' | '偶' | '傅' | '储' | '僧' | '僪' | '允' | '元' | '充' |
        '兆' | '光' | '党' | '全' | '公' | '六' | '兰' | '关' | '兴' | '其' => true,
        _ => false,
    }
}

/// Part 2 of the table of first chars of common surnames.
pub open spec fn surname_initials_2(c: char) -> bool {
    match c {
        '典' | '养' | '冀' | '冉' | '冒' | '军' | '农' | '冯' | '况' | '冷' |
        '冼' | '凌' | '凤' | '凭' | '出' | '函' | '刀' | '刁' | '刑' | '刘' |
        '刚' | '初' | '利' | '别' | '前' | '剑' | '剧' | '力' | '功' | '务' |
        '励' | '劳' | '势' | '勇' | '勤' | '勾' | '包' | '化' | '北' | '匡' |
        '区' | '千' | '华' | '卑' | '卓' | '单' | '南' | '卜' | '卞' | '占' => true,
        _ => false,
    }
}

fn in_surname_initials_2(c: char) -> (r: bool)
    ensures
        r == surname_initials_2(c),
{
    match c {
        '典' | '养' | '冀' | '冉' | '冒' | '军' | '农' | '冯' | '况' | '冷' |
        '冼' | '凌' | '凤' | '凭' | '出' | '函' | '刀' | '刁' | '刑' | '刘' |
        '刚' | '初' | '利' | '别' | '前' | '剑' | '剧' | '力' | '功' | '务' |
        '励' | '劳' | '势' | '勇' | '勤' | '勾' | '包' | '化' | '北' | '匡' |
        '区' | '千' | '华' | '卑' | '卓' | '单' | '南' | '卜' | '卞' | '占' => true,
        _ => false,
    }
}

/// Part 3 of the table of first chars of common surnames.
pub open spec fn surname_initials_3(c: char) -> bool {
    match c {
        '卢' | '卫' | '卯' | '印' | '危' | '却' | '卷' | '卿' | '厉' | '厍' |
        '厚' | '原' | '及' | '友' | '双' | '叔' | '受' | '古' | '召' | '可' |
        '台' | '史' | '叶' | '司' | '合' | '吉' | '同' | '后' | '向' | '吕' |
        '吴' | '吾' | '告' | '员' | '周' | '呼' | '和' | '咎' | '咸' | '哀' |
        '哈' | '唐' | '唱' | '商' | '善' | '喜' | '喻' | '嘉' | '回' | '国' => true,
        _ => false,
    }
}

fn in_surname_initials_3(c: char) -> (r: bool)
    ensures
        r == surname_initials_3(c),
{
    match c {
        '卢' | '卫' | '卯' | '印' | '危' | '却' | '卷' | '卿' | '厉' | '厍' |
        '厚' | '原' | '及' | '友' | '双' | '叔' | '受' | '古' | '召' | '可' |
        '台' | '史' | '叶' | '司' | '合' | '吉' | '同' | '后' | '向' | '吕' |
        '吴' | '吾' | '告' | '员' | '周' | '呼' | '和' | '咎' | '咸' | '哀' |
        '哈' | '唐' | '唱' | '商' | '善' | '喜' | '喻' | '嘉' | '回' | '国' => true,
        _ => false,
    }
}

/// Part 4 of the table of first chars of common surnames.
pub open spec fn surname_initials_4(c: char) -> bool {
    match c {
        '圣' | '在' | '圭' | '坚' | '城' | '堂' | '堵' | '塔' | '塞' | '墨' |
        '士' | '壬' | '声' | '夏' | '夔' | '夕' | '夙' | '多' | '大' | '天' |
        '夫' | '夷' | '奇' | '奈' | '奉' | '奕' | '奚' | '妫' | '始' | '姒' |
        '姓' | '委' | '姚' | '姜' | '姬' | '威' | '娄' | '嬴' | '孔' | '字' |
        '孙' | '孛' | '孝' | '孟' | '季' | '学' | '宁' | '宇' | '守' | '安' => true,
        _ => false,
    }
}

fn in_surname_initials_4(c: char) -> (r: bool)
    ensures
        r == surname_initials_4(c),
{
    match c {
        '圣' | '在' | '圭' | '坚' | '城' | '堂' | '堵' | '塔' | '塞' | '墨' |
        '士' | '壬' | '声' | '夏' | '夔' | '夕' | '夙' | '多' | '大' | '天' |
        '夫' | '夷' | '奇' | '奈' | '奉' | '奕' | '奚' | '妫' | '始' | '姒' |
        '姓' | '委' | '姚' | '姜' | '姬' | '威' | '娄' | '嬴' | '孔' | '字' |
        '孙' | '孛' | '孝' | '孟' | '季' | '学' | '宁' | '宇' | '守' | '安' => true,
        _ => false,
    }
}

/// Part 5 of the table of first chars of common surnames.
pub open spec fn surname_initials_5(c: char) -> bool {
    match c {
        '宋' | '完' | '宏' | '宓' | '宗' | '官' | '定' | '宛' | '宜' | '宝' |
        '实' | '宣' | '宦' | '宫' | '宰' | '家' | '容' | '宿' | '寇' | '富' |
        '寒' | '寸' | '寻' | '寿' | '封' | '将' | '尉' | '少' | '尔' | '尚' |
        '尤' | '尧' | '尹' | '尾' | '局' | '居' | '屈' | '展' | '屠' | '山' |
        '岑' | '岳' | '崇' | '崔' | '嵇' | '巢' | '左' | '巧' | '巨' | '巩' => true,
        _ => false,
    }
}

fn in_surname_initials_5(c: char) -> (r: bool)
    ensures
        r == surname_initials_5(c),
{
    match c {
        '宋' | '完' | '宏' | '宓' | '宗' | '官' | '定' | '宛' | '宜' | '宝' |
        '实' | '宣' | '宦' | '宫' | '宰' | '家' | '容' | '宿' | '寇' | '富' |
        '寒' | '寸' | '寻' | '寿' | '封' | '将' | '尉' | '少' | '尔' | '尚' |
        '尤' | '尧' | '尹' | '尾' | '局' | '居' | '屈' | '展' | '屠' | '山' |
        '岑' | '岳' | '崇' | '崔' | '嵇' | '巢' | '左' | '巧' | '巨' | '巩' => true,
        _ => false,
    }
}

/// Part 6 of the table of first chars of common surnames.
pub open spec fn surname_initials_6(c: char) -> bool {
    match c {
        '巫' | '己' | '巴' | '市' | '布' | '帅' | '师' | '希' | '帖' | '帛' |
        '席' | '常' | '干' | '平' | '年' | '幸' | '广' | '庄' | '庆' | '库' |
        '应' | '庚' | '府' | '庞' | '度' | '康' | '庹' | '庾' | '廉' | '廖' |
        '延' | '建' | '开' | '弓' | '弘' | '张' | '弥' | '弭' | '强' | '归' |
        '彤' | '彭' | '律' | '後' | '徐' | '御' | '徭' | '德' | '念' | '忻' => true,
        _ => false,
    }
}

fn in_surname_initials_6(c: char) -> (r: bool)
    ensures
        r == surname_initials_6(c),
{
    match c {
        '巫' | '己' | '巴' | '市' | '布' | '帅' | '师' | '希' | '帖' | '帛' |
        '席' | '常' | '干' | '平' | '年' | '幸' | '广' | '庄' | '庆' | '库' |
        '应' | '庚' | '府' | '庞' | '度' | '康' | '庹' | '庾' | '廉' | '廖' |
        '延' | '建' | '开' | '弓' | '弘' | '张' | '弥' | '弭' | '强' | '归' |
        '彤' | '彭' | '律' | '後' | '徐' | '御' | '徭' | '德' | '念' | '忻' => true,
        _ => false,
    }
}

/// Part 7 of the table of first chars of common surnames.
pub open spec fn surname_initials_7(c: char) -> bool {
    match c {
        '怀' | '性' | '恭' | '恽' | '悉' | '悟' | '惠' | '愈' | '愚' | '慈' |
        '慎' | '慕' | '戈' | '戊' | '戎' | '戏' | '成' | '战' | '戚' | '戢' |
        '戴' | '户' | '房' | '所' | '扈' | '才' | '扬' | '扶' | '承' | '抄' |
        '抗' | '折' | '招' | '拜' | '拱' | '捷' | '掌' | '接' | '揭' | '摩' |
        '撒' | '操' | '支' | '改' | '敏' | '敖' | '敛' | '敬' | '文' | '斋' => true,
        _ => false,
    }
}

fn in_surname_initials_7(c: char) -> (r: bool)
    ensures
        r == surname_initials_7(c),
{
    match c {
        '怀' | '性' | '恭' | '恽' | '悉' | '悟' | '惠' | '愈' | '愚' | '慈' |
        '慎' | '慕' | '戈' | '戊' | '戎' | '戏' | '成' | '战' | '戚' | '戢' |
        '戴' | '户' | '房' | '所' | '扈' | '才' | '扬' | '扶' | '承' | '抄' |
        '抗' | '折' | '招' | '拜' | '拱' | '捷' | '掌' | '接' | '揭' | '摩' |
        '撒' | '操' | '支' | '改' | '敏' | '敖' | '敛' | '敬' | '文' | '斋' => true,
        _ => false,
    }
}

/// Part 8 of the table of first chars of common surnames.
pub open spec fn surname_initials_8(c: char) -> bool {
    match c {
        '斐' | '斛' | '斯' | '方' | '於' | '施' | '旁' | '旅' | '旗' | '无' |
        '时' | '旷' | '昂' | '昌' | '明' | '易' | '昔' | '昝' | '星' | '春' |
        '是' | '晁' | '晋' | '晏' | '普' | '景' | '智' | '暨' | '暴' | '曲' |
        '曹' | '曾' | '有' | '朋' | '望' | '本' | '朱' | '朴' | '机' | '权' |
        '李' | '杜' | '杞' | '束' | '来' | '杨' | '杭' | '松' | '板' | '析' => true,
        _ => false,
    }
}

fn in_surname_initials_8(c: char) -> (r: bool)
    ensures
        r == surname_initials_8(c),
{
    match c {
        '斐' | '斛' | '斯' | '方' | '於' | '施' | '旁' | '旅' | '旗' | '无' |
        '时' | '旷' | '昂' | '昌' | '明' | '易' | '昔' | '昝' | '星' | '春' |
        '是' | '晁' | '晋' | '晏' | '普' | '景' | '智' | '暨' | '暴' | '曲' |
        '曹' | '曾' | '有' | '朋' | '望' | '本' | '朱' | '朴' | '机' | '权' |
        '李' | '杜' | '杞' | '束' | '来' | '杨' | '杭' | '松' | '板' | '析' => true,
        _ => false,
    }
}

/// Part 9 of the table of first chars of common surnames.
pub open spec fn surname_initials_9(c: char) -> bool {
    match c {
        '林' | '枚' | '枝' | '柏' | '柔' | '查' | '柯' | '柳' | '柴' | '栋' |
        '树' | '栗' | '校' | '栾' | '桂' | '桐' | '桑' | '桓' | '桥' | '梁' |
        '梅' | '检' | '森' | '植' | '楚' | '楼' | '樊' | '檀' | '欎' | '次' |
        '欧' | '止' | '步' | '武' | '歧' | '殳' | '殴' | '段' | '殷' | '毋' |
        '母' | '毓' | '毕' | '毛' | '水' | '永' | '求' | '汉' | '汗' | '汝' => true,
        _ => false,
    }
}

fn in_surname_initials_9(c: char) -> (r: bool)
    ensures
        r == surname_initials_9(c),
{
    match c {
        '林' | '枚' | '枝' | '柏' | '柔' | '查' | '柯' | '柳' | '柴' | '栋' |
        '树' | '栗' | '校' | '栾' | '桂' | '桐' | '桑' | '桓' | '桥' | '梁' |
        '梅' | '检' | '森' | '植' | '楚' | '楼' | '樊' | '檀' | '欎' | '次' |
        '欧' | '止' | '步' | '武' | '歧' | '殳' | '殴' | '段' | '殷' | '毋' |
        '母' | '毓' | '毕' | '毛' | '水' | '永' | '求' | '汉' | '汗' | '汝' => true,
        _ => false,
    }
}

/// Part 10 of the table of first chars of common surnames.
pub open spec fn surname_initials_10(c: char) -> bool {
    match c {
        '江' | '池' | '汤' | '汪' | '汲' | '沃' | '沈' | '沐' | '沙' | '泉' |
        '法' | '波' | '泣' | '泥' | '泰' | '泷' | '洋' | '洛' | '洪' | '浑' |
        '浦' | '浮' | '海' | '涂' | '淡' | '淦' | '清' | '渠' | '温' | '游' |
        '湛' | '源' | '滑' | '滕' | '满' | '漆' | '漫' | '潘' | '潜' | '潭' |
        '潮' | '澄' | '濮' | '濯' | '烟' | '焉' | '焦' | '熊' | '燕' | '爱' => true,
        _ => false,
    }
}

fn in_surname_initials_10(c: char) -> (r: bool)
    ensures
        r == surname_initials_10(c),
{
    match c {
        '江' | '池' | '汤' | '汪' | '汲' | '沃' | '沈' | '沐' | '沙' | '泉' |
        '法' | '波' | '泣' | '泥' | '泰' | '泷' | '洋' | '洛' | '洪' | '浑' |
        '浦' | '浮' | '海' | '涂' | '淡' | '淦' | '清' | '渠' | '温' | '游' |
        '湛' | '源' | '滑' | '滕' | '满' | '漆' | '漫' | '潘' | '潜' | '潭' |
        '潮' | '澄' | '濮' | '濯' | '烟' | '焉' | '焦' | '熊' | '燕' | '爱' => true,
        _ => false,
    }
}

/// Part 11 of the table of first chars of common surnames.
pub open spec fn surname_initials_11(c: char) -> bool {
    match c {
        '牛' | '牟' | '牢' | '牧' | '牵' | '犁' | '犹' | '狂' | '狄' | '独' |
        '玄' | '玉' | '王' | '环' | '班' | '理' | '琦' | '琴' | '瑞' | '璩' |
        '瓮' | '甄' | '甘' | '生' | '用' | '甫' | '田' | '由' | '甲' | '申' |
        '畅' | '留' | '疏' | '登' | '白' | '百' | '皇' | '皋' | '皮' | '盈' |
        '益' | '盍' | '盖' | '盘' | '盛' | '相' | '真' | '眭' | '睢' | '督' => true,
        _ => false,
    }
}

fn in_surname_initials_11(c: char) -> (r: bool)
    ensures
        r == surname_initials_11(c),
{
    match c {
        '牛' | '牟' | '牢' | '牧' | '牵' | '犁' | '犹' | '狂' | '狄' | '独' |
        '玄' | '玉' | '王' | '环' | '班' | '理' | '琦' | '琴' | '瑞' | '璩' |
        '瓮' | '甄' | '甘' | '生' | '用' | '甫' | '田' | '由' | '甲' | '申' |
        '畅' | '留' | '疏' | '登' | '白' | '百' | '皇' | '皋' | '皮' | '盈' |
        '益' | '盍' | '盖' | '盘' | '盛' | '相' | '真' | '眭' | '睢' | '督' => true,
        _ => false,
    }
}

/// Part 12 of the table of first chars of common surnames.
pub open spec fn surname_initials_12(c: char) -> bool {
    match c {
        '睦' | '瞿' | '矫' | '石' | '硕' | '碧' | '磨' | '示' | '礼' | '祁' |
        '祈' | '祖' | '祝' | '祢' | '祭' | '禄' | '福' | '禚' | '禹' | '禽' |
        '禾' | '秋' | '种' | '秘' | '秦' | '称' | '程' | '税' | '稽' | '穆' |
        '穰' | '空' | '窦' | '章' | '童' | '竭' | '端' | '竹' | '竺' | '笃' |
        '符' | '笪' | '第' | '答' | '简' | '箕' | '管' | '籍' | '米' | '类' => true,
        _ => false,
    }
}

fn in_surname_initials_12(c: char) -> (r: bool)
    ensures
        r == surname_initials_12(c),
{
    match c {
        '睦' | '瞿' | '矫' | '石' | '硕' | '碧' | '磨' | '示' | '礼' | '祁' |
        '祈' | '祖' | '祝' | '祢' | '祭' | '禄' | '福' | '禚' | '禹' | '禽' |
        '禾' | '秋' | '种' | '秘' | '秦' | '称' | '程' | '税' | '稽' | '穆' |
        '穰' | '空' | '窦' | '章' | '童' | '竭' | '端' | '竹' | '竺' | '笃' |
        '符' | '笪' | '第' | '答' | '简' | '箕' | '管' | '籍' | '米' | '类' => true,
        _ => false,
    }
}

/// Part 13 of the table of first chars of common surnames.
pub open spec fn surname_initials_13(c: char) -> bool {
    match c {
        '粘' | '粟' | '糜' | '系' | '素' | '索' | '紫' | '綦' | '繁' | '红' |
        '纪' | '纳' | '纵' | '线' | '练' | '终' | '绍' | '经' | '绪' | '续' |
        '绳' | '缑' | '缪' | '罕' | '罗' | '羊' | '羽' | '羿' | '翁' | '翟' |
        '翠' | '翦' | '老' | '考' | '耿' | '聂' | '聊' | '肇' | '肥' | '胡' |
        '胥' | '能' | '脱' | '腾' | '臧' | '舄' | '舒' | '舜' | '良' | '艾' => true,
        _ => false,
    }
}

fn in_surname_initials_13(c: char) -> (r: bool)
    ensures
        r == surname_initials_13(c),
{
    match c {
        '粘' | '粟' | '糜' | '系' | '素' | '索' | '紫' | '綦' | '繁' | '红' |
        '纪' | '纳' | '纵' | '线' | '练' | '终' | '绍' | '经' | '绪' | '续' |
        '绳' | '缑' | '缪' | '罕' | '罗' | '羊' | '羽' | '羿' | '翁' | '翟' |
        '翠' | '翦' | '老' | '考' | '耿' | '聂' | '聊' | '肇' | '肥' | '胡' |
        '胥' | '能' | '脱' | '腾' | '臧' | '舄' | '舒' | '舜' | '良' | '艾' => true,
        _ => false,
    }
}

/// Part 14 of the table of first chars of common surnames.
pub open spec fn surname_initials_14(c: char) -> bool {
    match c {
        '节' | '芒' | '芮' | '花' | '苌' | '苍' | '苏' | '苑' | '苗' | '苟' |
        '苦' | '英' | '茂' | '范' | '茅' | '茆' | '茹' | '荀' | '荆' | '荣' |
        '荤' | '莘' | '莫' | '莱' | '菅' | '营' | '萧' | '萨' | '葛' | '董' |
        '蒉' | '蒋' | '蒙' | '蒯' | '蒲' | '蒿' | '蓝' | '蓟' | '蓬' | '蔚' |
        '蔡' | '蔺' | '薄' | '薛' | '藏' | '藤' | '藩' | '虎' | '虞' | '虢' => true,
        _ => false,
    }
}

fn in_surname_initials_14(c: char) -> (r: bool)
    ensures
        r == surname_initials_14(c),
{
    match c {
        '节' | '芒' | '芮' | '花' | '苌' | '苍' | '苏' | '苑' | '苗' | '苟' |
        '苦' | '英' | '茂' | '范' | '茅' | '茆' | '茹' | '荀' | '荆' | '荣' |
        '荤' | '莘' | '莫' | '莱' | '菅' | '营' | '萧' | '萨' | '葛' | '董' |
        '蒉' | '蒋' | '蒙' | '蒯' | '蒲' | '蒿' | '蓝' | '蓟' | '蓬' | '蔚' |
        '蔡' | '蔺' | '薄' | '薛' | '藏' | '藤' | '藩' | '虎' | '虞' | '虢' => true,
        _ => false,
    }
}

/// Part 15 of the table of first chars of common surnames.
pub open spec fn surname_initials_15(c: char) -> bool {
    match c {
        '蚁' | '蛮' | '融' | '衅' | '行' | '衡' | '衣' | '表' | '衷' | '袁' |
        '袭' | '裔' | '裘' | '裴' | '褒' | '褚' | '覃' | '解' | '言' | '訾' |
        '詹' | '謇' | '计' | '让' | '许' | '诗' | '说' | '诸' | '诺' | '谈' |
        '谌' | '谏' | '谢' | '谬' | '谭' | '谯' | '谷' | '豆' | '象' | '貊' |
        '贝' | '贡' | '贯' | '贰' | '贲' | '贵' | '贸' | '费' | '贺' | '贾' => true,
        _ => false,
    }
}

fn in_surname_initials_15(c: char) -> (r: bool)
    ensures
        r == surname_initials_15(c),
{
    match c {
        '蚁' | '蛮' | '融' | '衅' | '行' | '衡' | '衣' | '表' | '衷' | '袁' |
        '袭' | '裔' | '裘' | '裴' | '褒' | '褚' | '覃' | '解' | '言' | '訾' |
        '詹' | '謇' | '计' | '让' | '许' | '诗' | '说' | '诸' | '诺' | '谈' |
        '谌' | '谏' | '谢' | '谬' | '谭' | '谯' | '谷' | '豆' | '象' | '貊' |
        '贝' | '贡' | '贯' | '贰' | '贲' | '贵' | '贸' | '费' | '贺' | '贾' => true,
        _ => false,
    }
}

/// Part 16 of the table of first chars of common surnames.
pub open spec fn surname_initials_16(c: char) -> bool {
    match c {
        '资' | '赏' | '赖' | '赛' | '赤' | '赧' | '赫' | '赵' | '越' | '路' |
        '蹇' | '蹉' | '车' | '载' | '辉' | '辛' | '辜' | '辟' | '边' | '达' |
        '过' | '运' | '进' | '连' | '迟' | '迮' | '逄' | '通' | '速' | '逢' |
        '逮' | '逯' | '遇' | '道' | '邓' | '邗' | '邛' | '邝' | '邢' | '那' |
        '邬' | '邰' | '邱' | '邴' | '邵' | '邶' | '邸' | '邹' | '郁' | '郎' => true,
        _ => false,
    }
}

fn in_surname_initials_16(c: char) -> (r: bool)
    ensures
        r == surname_initials_16(c),
{
    match c {
        '资' | '赏' | '赖' | '赛' | '赤' | '赧' | '赫' | '赵' | '越' | '路' |
        '蹇' | '蹉' | '车' | '载' | '辉' | '辛' | '辜' | '辟' | '边' | '达' |
        '过' | '运' | '进' | '连' | '迟' | '迮' | '逄' | '通' | '速' | '逢' |
        '逮' | '逯' | '遇' | '道' | '邓' | '邗' | '邛' | '邝' | '邢' | '那' |
        '邬' | '邰' | '邱' | '邴' | '邵' | '邶' | '邸' | '邹' | '郁' | '郎' => true,
        _ => false,
    }
}

/// Part 17 of the table of first chars of common surnames.
pub open spec fn surname_initials_17(c: char) -> bool {
    match c {
        '郏' | '郑' | '郗' | '郜' | '郝' | '郦' | '郭' | '郯' | '郸' | '都' |
        '鄂' | '鄞' | '鄢' | '酆' | '酒' | '释' | '野' | '金' | '针' | '钊' |
        '钞' | '钟' | '钦' | '钭' | '钮' | '钱' | '铁' | '铎' | '银' | '锁' |
        '锐' | '错' | '镇' | '镜' | '长' | '门' | '闪' | '闫' | '闭' | '问' |
        '闳' | '闵' | '闻' | '闽' | '闾' | '阎' | '阙' | '阚' | '阮' | '阳' => true,
        _ => false,
    }
}

fn in_surname_initials_17(c: char) -> (r: bool)
    ensures
        r == surname_initials_17(c),
{
    match c {
        '郏' | '郑' | '郗' | '郜' | '郝' | '郦' | '郭' | '郯' | '郸' | '都' |
        '鄂' | '鄞' | '鄢' | '酆' | '酒' | '释' | '野' | '金' | '针' | '钊' |
        '钞' | '钟' | '钦' | '钭' | '钮' | '钱' | '铁' | '铎' | '银' | '锁' |
        '锐' | '错' | '镇' | '镜' | '长' | '门' | '闪' | '闫' | '闭' | '问' |
        '闳' | '闵' | '闻' | '闽' | '闾' | '阎' | '阙' | '阚' | '阮' | '阳' => true,
        _ => false,
    }
}

/// Part 18 of the table of first chars of common surnames.
pub open spec fn surname_initials_18(c: char) -> bool {
    match c {
        '阴' | '阿' | '陀' | '陆' | '陈' | '陶' | '隆' | '隋' | '随' | '隐' |
        '隗' | '隽' | '雀' | '集' | '雍' | '雪' | '零' | '雷' | '霍' | '霜' |
        '青' | '靖' | '革' | '靳' | '鞠' | '韦' | '韩' | '韶' | '项' | '须' |
        '顾' | '顿' | '频' | '颜' | '风' | '飞' | '饶' | '首' | '马' | '驹' |
        '骆' | '骑' | '高' | '魏' | '鱼' | '鲁' | '鲍' | '鲜' | '鹿' | '麦' => true,
        _ => false,
    }
}

fn in_surname_initials_18(c: char) -> (r: bool)
    ensures
        r == surname_initials_18(c),
{
    match c {
        '阴' | '阿' | '陀' | '陆' | '陈' | '陶' | '隆' | '隋' | '随' | '隐' |
        '隗' | '隽' | '雀' | '集' | '雍' | '雪' | '零' | '雷' | '霍' | '霜' |
        '青' | '靖' | '革' | '靳' | '鞠' | '韦' | '韩' | '韶' | '项' | '须' |
        '顾' | '顿' | '频' | '颜' | '风' | '飞' | '饶' | '首' | '马' | '驹' |
        '骆' | '骑' | '高' | '魏' | '鱼' | '鲁' | '鲍' | '鲜' | '鹿' | '麦' => true,
        _ => false,
    }
}

/// Part 19 of the table of first chars of common surnames.
pub open spec fn surname_initials_19(c: char) -> bool {
    match c {
        '麴' | '麻' | '黄' | '黎' | '齐' | '龙' | '龚' | '上' | '凃' | '壤' |
        '太' | '夹' | '子' | '微' | '拓' | '淳' | '澹' | '荔' | '西' | '轩' |
        '辗' | '锺' | '颛' => true,
        _ => false,
    }
}

fn in_surname_initials_19(c: char) -> (r: bool)
    ensures
        r == surname_initials_19(c),
{
    match c {
        '麴' | '麻' | '黄' | '黎' | '齐' | '龙' | '龚' | '上' | '凃' | '壤' |
        '太' | '夹' | '子' | '微' | '拓' | '淳' | '澹' | '荔' | '西' | '轩' |
        '辗' | '锺' | '颛' => true,
        _ => false,
    }
}

/// `c` is the first char of a common Chinese surname.
pub open spec fn is_surname_initial(c: char) -> bool {
    surname_initials_0(c)
    || surname_initials_1(c)
    || surname_initials_2(c)
    || surname_initials_3(c)
    || surname_initials_4(c)
    || surname_initials_5(c)
    || surname_initials_6(c)
    || surname_initials_7(c)
    || surname_initials_8(c)
    || surname_initials_9(c)
    || surname_initials_10(c)
    || surname_initials_11(c)
    || surname_initials_12(c)
    || surname_initials_13(c)
    || surname_initials_14(c)
    || surname_initials_15(c)
    || surname_initials_16(c)
    || surname_initials_17(c)
    || surname_initials_18(c)
    || surname_initials_19(c)
}

/// Whether `c` begins one of the common surnames.
pub fn is_common_surname(c: char) -> (r: bool)
    ensures
        r == is_surname_initial(c),
{
    in_surname_initials_0(c)
        || in_surname_initials_1(c)
        || in_surname_initials_2(c)
        || in_surname_initials_3(c)
        || in_surname_initials_4(c)
        || in_surname_initials_5(c)
        || in_surname_initials_6(c)
        || in_surname_initials_7(c)
        || in_surname_initials_8(c)
        || in_surname_initials_9(c)
        || in_surname_initials_10(c)
        || in_surname_initials_11(c)
        || in_surname_initials_12(c)
        || in_surname_initials_13(c)
        || in_surname_initials_14(c)
        || in_surname_initials_15(c)
        || in_surname_initials_16(c)
        || in_surname_initials_17(c)
        || in_surname_initials_18(c)
        || in_surname_initials_19(c)
}

} // verus!
