//! The built-in word tables: the default translations from Chinese
//! development vocabulary to English, and the default stop words.
use vstd::prelude::*;
use crate::text::views;
use crate::vocabulary::WordMap;

verus! {

/// The translations of the default mapping document, in the order of
/// insertion; a later pair for the same word replaces an earlier one.
pub open spec fn default_mappings() -> Map<Seq<char>, Seq<char>> {
    Map::empty()
        .insert("获取"@, "get"@)
        .insert("得到"@, "get"@)
        .insert("取得"@, "get"@)
        .insert("设置"@, "set"@)
        .insert("更新"@, "update"@)
        .insert("修改"@, "modify"@)
        .insert("删除"@, "delete"@)
        .insert("移除"@, "remove"@)
        .insert("添加"@, "add"@)
        .insert("增加"@, "add"@)
        .insert("创建"@, "create"@)
        .insert("生成"@, "generate"@)
        .insert("计算"@, "calculate"@)
        .insert("处理"@, "process"@)
        .insert("执行"@, "execute"@)
        .insert("调用"@, "call"@)
        .insert("用户"@, "user"@)
        .insert("用户名"@, "username"@)
        .insert("密码"@, "password"@)
        .insert("邮箱"@, "email"@)
        .insert("信息"@, "info"@)
        .insert("资料"@, "profile"@)
        .insert("账户"@, "account"@)
        .insert("权限"@, "permission"@)
        .insert("数据"@, "data"@)
        .insert("数据库"@, "database"@)
        .insert("表"@, "table"@)
        .insert("字段"@, "field"@)
        .insert("记录"@, "record"@)
        .insert("文件"@, "file"@)
        .insert("配置"@, "config"@)
        .insert("设置"@, "settings"@)
        .insert("系统"@, "system"@)
        .insert("服务"@, "service"@)
        .insert("接口"@, "api"@)
        .insert("请求"@, "request"@)
        .insert("响应"@, "response"@)
        .insert("状态"@, "status"@)
        .insert("错误"@, "error"@)
        .insert("日志"@, "log"@)
        .insert("连接"@, "connection"@)
        .insert("链接"@, "link"@)
        .insert("网络"@, "network"@)
        .insert("地址"@, "address"@)
        .insert("端口"@, "port"@)
        .insert("名"@, "name"@)
        .insert("姓"@, "surname"@)
        .insert("年"@, "year"@)
        .insert("月"@, "month"@)
        .insert("日"@, "day"@)
        .insert("时"@, "hour"@)
        .insert("分"@, "minute"@)
        .insert("秒"@, "second"@)
        .insert("数"@, "number"@)
        .insert("量"@, "quantity"@)
        .insert("价"@, "price"@)
        .insert("值"@, "value"@)
        .insert("类"@, "type"@)
        .insert("型"@, "type"@)
        .insert("组"@, "group"@)
        .insert("列表"@, "list"@)
        .insert("数组"@, "array"@)
        .insert("余额"@, "balance"@)
        .insert("金额"@, "amount"@)
        .insert("费用"@, "fee"@)
        .insert("成本"@, "cost"@)
        .insert("收入"@, "income"@)
        .insert("支出"@, "expense"@)
}

/// The built-in translation table: the default document's, where "类" is
/// read as "class".
pub open spec fn builtin_mappings() -> Map<Seq<char>, Seq<char>> {
    default_mappings().insert("类"@, "class"@)
}

/// The default stop words, Chinese function words and English ones.
pub open spec fn default_stop_words() -> Seq<Seq<char>> {
    Seq::empty()
        .push("的"@)
        .push("了"@)
        .push("和"@)
        .push("是"@)
        .push("就"@)
        .push("都"@)
        .push("而"@)
        .push("及"@)
        .push("与"@)
        .push("着"@)
        .push("或"@)
        .push("一个"@)
        .push("没有"@)
        .push("我们"@)
        .push("你们"@)
        .push("他们"@)
        .push("this"@)
        .push("that"@)
        .push("these"@)
        .push("those"@)
        .push("is"@)
        .push("are"@)
        .push("was"@)
        .push("were"@)
        .push("be"@)
        .push("been"@)
        .push("being"@)
        .push("the"@)
        .push("a"@)
        .push("an"@)
        .push("and"@)
        .push("or"@)
        .push("but"@)
        .push("in"@)
        .push("on"@)
        .push("at"@)
        .push("to"@)
        .push("for"@)
        .push("of"@)
        .push("with"@)
        .push("by"@)
        .push("from"@)
        .push("as"@)
        .push("into"@)
        .push("like"@)
        .push("through"@)
        .push("after"@)
        .push("over"@)
        .push("between"@)
        .push("out"@)
        .push("against"@)
        .push("during"@)
        .push("before"@)
        .push("because"@)
        .push("if"@)
        .push("when"@)
        .push("than"@)
        .push("so"@)
        .push("such"@)
        .push("both"@)
        .push("each"@)
        .push("every"@)
        .push("some"@)
        .push("any"@)
        .push("few"@)
        .push("more"@)
        .push("most"@)
        .push("other"@)
        .push("own"@)
        .push("same"@)
        .push("all"@)
        .push("none"@)
        .push("nor"@)
        .push("not"@)
        .push("only"@)
        .push("very"@)
        .push("s"@)
        .push("t"@)
        .push("can"@)
        .push("will"@)
        .push("don"@)
        .push("should"@)
        .push("now"@)
}

fn put(m: &mut WordMap, key: &str, value: &str)
    ensures
        final(m)@ == old(m)@.insert(key@, value@),
{
    m.insert(key.to_string(), value.to_string());
}

fn add_word(v: &mut Vec<String>, w: &str)
    ensures
        views(final(v)@) == views(old(v)@).push(w@),
{
    let ghost before = v@;
    v.push(w.to_string());
    assert(views(v@) =~= views(before).push(w@));
}

/// The translations of the default mapping document.
pub fn default_mapping_table() -> (r: WordMap)
    ensures
        r@ == default_mappings(),
{
    let mut m = WordMap::new();
    put(&mut m, "获取", "get");
    put(&mut m, "得到", "get");
    put(&mut m, "取得", "get");
    put(&mut m, "设置", "set");
    put(&mut m, "更新", "update");
    put(&mut m, "修改", "modify");
    put(&mut m, "删除", "delete");
    put(&mut m, "移除", "remove");
    put(&mut m, "添加", "add");
    put(&mut m, "增加", "add");
    put(&mut m, "创建", "create");
    put(&mut m, "生成", "generate");
    put(&mut m, "计算", "calculate");
    put(&mut m, "处理", "process");
    put(&mut m, "执行", "execute");
    put(&mut m, "调用", "call");
    put(&mut m, "用户", "user");
    put(&mut m, "用户名", "username");
    put(&mut m, "密码", "password");
    put(&mut m, "邮箱", "email");
    put(&mut m, "信息", "info");
    put(&mut m, "资料", "profile");
    put(&mut m, "账户", "account");
    put(&mut m, "权限", "permission");
    put(&mut m, "数据", "data");
    put(&mut m, "数据库", "database");
    put(&mut m, "表", "table");
    put(&mut m, "字段", "field");
    put(&mut m, "记录", "record");
    put(&mut m, "文件", "file");
    put(&mut m, "配置", "config");
    put(&mut m, "设置", "settings");
    put(&mut m, "系统", "system");
    put(&mut m, "服务", "service");
    put(&mut m, "接口", "api");
    put(&mut m, "请求", "request");
    put(&mut m, "响应", "response");
    put(&mut m, "状态", "status");
    put(&mut m, "错误", "error");
    put(&mut m, "日志", "log");
    put(&mut m, "连接", "connection");
    put(&mut m, "链接", "link");
    put(&mut m, "网络", "network");
    put(&mut m, "地址", "address");
    put(&mut m, "端口", "port");
    put(&mut m, "名", "name");
    put(&mut m, "姓", "surname");
    put(&mut m, "年", "year");
    put(&mut m, "月", "month");
    put(&mut m, "日", "day");
    put(&mut m, "时", "hour");
    put(&mut m, "分", "minute");
    put(&mut m, "秒", "second");
    put(&mut m, "数", "number");
    put(&mut m, "量", "quantity");
    put(&mut m, "价", "price");
    put(&mut m, "值", "value");
    put(&mut m, "类", "type");
    put(&mut m, "型", "type");
    put(&mut m, "组", "group");
    put(&mut m, "列表", "list");
    put(&mut m, "数组", "array");
    put(&mut m, "余额", "balance");
    put(&mut m, "金额", "amount");
    put(&mut m, "费用", "fee");
    put(&mut m, "成本", "cost");
    put(&mut m, "收入", "income");
    put(&mut m, "支出", "expense");
    m
}

/// The default stop words, in their listed order.
pub fn default_stop_word_list() -> (r: Vec<String>)
    ensures
        views(r@) == default_stop_words(),
{
    let mut v: Vec<String> = Vec::new();
    assert(views(v@) =~= Seq::<Seq<char>>::empty());
    add_word(&mut v, "的");
    add_word(&mut v, "了");
    add_word(&mut v, "和");
    add_word(&mut v, "是");
    add_word(&mut v, "就");
    add_word(&mut v, "都");
    add_word(&mut v, "而");
    add_word(&mut v, "及");
    add_word(&mut v, "与");
    add_word(&mut v, "着");
    add_word(&mut v, "或");
    add_word(&mut v, "一个");
    add_word(&mut v, "没有");
    add_word(&mut v, "我们");
    add_word(&mut v, "你们");
    add_word(&mut v, "他们");
    add_word(&mut v, "this");
    add_word(&mut v, "that");
    add_word(&mut v, "these");
    add_word(&mut v, "those");
    add_word(&mut v, "is");
    add_word(&mut v, "are");
    add_word(&mut v, "was");
    add_word(&mut v, "were");
    add_word(&mut v, "be");
    add_word(&mut v, "been");
    add_word(&mut v, "being");
    add_word(&mut v, "the");
    add_word(&mut v, "a");
    add_word(&mut v, "an");
    add_word(&mut v, "and");
    add_word(&mut v, "or");
    add_word(&mut v, "but");
    add_word(&mut v, "in");
    add_word(&mut v, "on");
    add_word(&mut v, "at");
    add_word(&mut v, "to");
    add_word(&mut v, "for");
    add_word(&mut v, "of");
    add_word(&mut v, "with");
    add_word(&mut v, "by");
    add_word(&mut v, "from");
    add_word(&mut v, "as");
    add_word(&mut v, "into");
    add_word(&mut v, "like");
    add_word(&mut v, "through");
    add_word(&mut v, "after");
    add_word(&mut v, "over");
    add_word(&mut v, "between");
    add_word(&mut v, "out");
    add_word(&mut v, "against");
    add_word(&mut v, "during");
    add_word(&mut v, "before");
    add_word(&mut v, "because");
    add_word(&mut v, "if");
    add_word(&mut v, "when");
    add_word(&mut v, "than");
    add_word(&mut v, "so");
    add_word(&mut v, "such");
    add_word(&mut v, "both");
    add_word(&mut v, "each");
    add_word(&mut v, "every");
    add_word(&mut v, "some");
    add_word(&mut v, "any");
    add_word(&mut v, "few");
    add_word(&mut v, "more");
    add_word(&mut v, "most");
    add_word(&mut v, "other");
    add_word(&mut v, "own");
    add_word(&mut v, "same");
    add_word(&mut v, "all");
    add_word(&mut v, "none");
    add_word(&mut v, "nor");
    add_word(&mut v, "not");
    add_word(&mut v, "only");
    add_word(&mut v, "very");
    add_word(&mut v, "s");
    add_word(&mut v, "t");
    add_word(&mut v, "can");
    add_word(&mut v, "will");
    add_word(&mut v, "don");
    add_word(&mut v, "should");
    add_word(&mut v, "now");
    v
}

/// The built-in translation table.
pub fn load_default_chinese_to_english_map() -> (r: WordMap)
    ensures
        r@ == builtin_mappings(),
{
    let mut m = default_mapping_table();
    put(&mut m, "类", "class");
    m
}

/// The built-in stop words.
pub fn load_default_stop_words() -> (r: Vec<String>)
    ensures
        views(r@) == default_stop_words(),
{
    default_stop_word_list()
}

} // verus!
