use var_gen::error::Error;
use var_gen::rule::{space_camel_boundaries, RuleGenerator};
use var_gen::style::{convert_to_style, NamingStyle};
use var_gen::text::{contains_cjk, is_chinese_char};
use var_gen::vocabulary::{MappingConfig, WordMap};

fn strings(words: &[&str]) -> Vec<String> {
    words.iter().map(|w| w.to_string()).collect()
}

fn generate(description: &str, style: NamingStyle) -> Result<Vec<String>, Error> {
    RuleGenerator::new().generate(description, style)
}

#[test]
fn test_basic_generation() {
    let names = generate("user name", NamingStyle::Snake).unwrap();
    assert!(names.iter().any(|n| n.contains("user_name")));
    assert_eq!(names, vec!["user_name".to_string()]);
}

#[test]
fn test_chinese_generation() {
    let names = generate("用户名", NamingStyle::Camel).unwrap();
    assert!(names.iter().any(|n| n.contains("username")));
    assert_eq!(names, vec!["username".to_string()]);
}

#[test]
fn test_all_styles() {
    let labels: Vec<String> = NamingStyle::all().iter().map(|s| s.to_string()).collect();
    let shown = labels.join("\n");
    for name in ["驼峰命名法", "帕斯卡命名法", "下划线命名法", "短横线命名法", "大写下划线命名法", "小驼峰命名法"] {
        assert!(shown.contains(name), "missing {}", name);
    }
    assert_eq!(labels.len(), 6);
    assert_eq!(NamingStyle::Kebab.label(), "短横线命名法 (kebab-case)");
}

#[test]
fn batch_descriptions_render_in_snake_case() {
    assert_eq!(generate("user name", NamingStyle::Snake).unwrap(), vec!["user_name".to_string()]);
    assert_eq!(generate("password", NamingStyle::Snake).unwrap(), vec!["password".to_string()]);
    assert_eq!(
        generate("database connection", NamingStyle::Snake).unwrap(),
        vec!["database_connection".to_string()]
    );
}

#[test]
fn renderer_covers_every_style() {
    let tokens = strings(&["user", "name"]);
    let render = |style| convert_to_style(&tokens, style).unwrap();
    assert_eq!(render(NamingStyle::Snake), "user_name");
    assert_eq!(render(NamingStyle::Kebab), "user-name");
    assert_eq!(render(NamingStyle::UpperSnake), "USER_NAME");
    assert_eq!(render(NamingStyle::Pascal), "UserName");
    assert_eq!(render(NamingStyle::Camel), "userName");
    assert_eq!(render(NamingStyle::LowerCamel), "userName");
}

#[test]
fn renderer_refuses_empty_tokens() {
    let r = convert_to_style(&[], NamingStyle::Snake);
    assert!(matches!(r, Err(Error::RuleError(_))));
}

#[test]
fn renderer_keeps_all_but_first_letter() {
    let tokens = strings(&["get", "éclair", "用户", "x1"]);
    assert_eq!(convert_to_style(&tokens, NamingStyle::Pascal).unwrap(), "Getéclair用户X1");
    assert_eq!(convert_to_style(&tokens, NamingStyle::Camel).unwrap(), "getéclair用户X1");
    assert_eq!(convert_to_style(&tokens, NamingStyle::UpperSnake).unwrap(), "GET_ÉCLAIR_用户_X1");
}

#[test]
fn stop_word_filter_is_idempotent() {
    let g = RuleGenerator::new();
    let tokens = strings(&["the", "user", "of", "的", "name"]);
    let once = g.filter_stop_words(&tokens);
    assert_eq!(once, strings(&["user", "的", "name"]));
    let twice = g.filter_stop_words(&once);
    assert_eq!(twice, once);
    assert!(g.filter_stop_words(&strings(&["the", "a"])).is_empty());
}

#[test]
fn stop_words_plus_one_term_keep_the_term() {
    let names = generate("的的的 用户", NamingStyle::Snake).unwrap();
    assert_eq!(names.len(), 1);
    assert!(names[0].contains("user"), "{}", names[0]);
}

#[test]
fn mapped_ideographs_leave_no_ideograph() {
    for style in NamingStyle::all() {
        let names = generate("获取用户信息", style).unwrap();
        assert_eq!(names.len(), 1);
        assert!(!names[0].is_empty());
        assert!(!names[0].chars().any(is_chinese_char), "{}", names[0]);
    }
    assert_eq!(generate("获取用户信息", NamingStyle::Snake).unwrap(), vec!["get_user_info".to_string()]);
}

#[test]
fn unmapped_ideographs_stay_in_place() {
    let g = RuleGenerator::new();
    assert_eq!(g.translate_segment("用户名"), "username");
    assert_eq!(g.translate_segment("名龘"), "name龘");
    assert_eq!(g.translate_segment("a名b"), "anameb");
    assert!(contains_cjk("name龘"));
}

#[test]
fn generation_is_repeatable() {
    let g = RuleGenerator::new();
    let a = g.generate("获取 userName 列表", NamingStyle::Camel).unwrap();
    let b = g.generate("获取 userName 列表", NamingStyle::Camel).unwrap();
    assert_eq!(a, b);
    let other = RuleGenerator::new();
    assert_eq!(other.generate("获取 userName 列表", NamingStyle::Camel).unwrap(), a);
}

#[test]
fn empty_or_stop_word_descriptions_fail() {
    assert!(matches!(generate("", NamingStyle::Snake), Err(Error::RuleError(_))));
    assert!(matches!(generate("!!! ???", NamingStyle::Snake), Err(Error::RuleError(_))));
    assert!(matches!(generate("the of and", NamingStyle::Snake), Err(Error::RuleError(_))));
}

#[test]
fn normalization_strips_symbols_and_lowercases() {
    let g = RuleGenerator::new();
    assert_eq!(g.preprocess_text("User-Name!"), "username");
    assert_eq!(g.preprocess_text("Hello, 世界 42"), "hello 世界 42");
}

#[test]
fn tokenizer_segments_stems_and_splits() {
    let g = RuleGenerator::new();
    assert_eq!(g.tokenize("获取用户"), strings(&["get", "user"]));
    assert_eq!(g.tokenize("users"), strings(&["user"]));
    assert_eq!(g.tokenize("connections"), strings(&["connections"]));
    assert_eq!(g.tokenize("first-name"), strings(&["first", "name"]));
    assert_eq!(g.split_camel_case("userName"), strings(&["user", "name"]));
    assert_eq!(space_camel_boundaries("aBcDE"), "a Bc DE");
}

#[test]
fn document_vocabulary_takes_precedence() {
    let mut doc = MappingConfig::default();
    doc.mappings = WordMap::new();
    doc.mappings.insert("用户".to_string(), "member".to_string());
    doc.stop_words = strings(&["info"]);
    let g = RuleGenerator::new_with_config(Some(doc));
    assert_eq!(g.translate("用户").map(|s| s.as_str()), Some("member"));
    assert_eq!(g.translate("密码").map(|s| s.as_str()), Some("password"));
    assert!(g.is_stop_word("info"));
    assert!(g.is_stop_word("the"));
    assert_eq!(g.generate("用户 信息 密码", NamingStyle::Kebab).unwrap(), vec!["member-password".to_string()]);
}
