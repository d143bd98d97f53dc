use var_gen::error::Error;
use var_gen::generator::{Action, Event, Generator};
use var_gen::llm::{LLMGenerator, Provider, RemoteStep};
use var_gen::rule::RuleGenerator;
use var_gen::style::NamingStyle;

fn backend(model: &str) -> LLMGenerator {
    LLMGenerator::new(Some("SECRET-REDACTED".to_string()), model.to_string()).unwrap()
}

fn finished(action: Action) -> Result<Vec<String>, Error> {
    match action {
        Action::Finish(r) => r,
        other => panic!("expected a result, got {:?}", other),
    }
}

#[test]
fn forced_local_request_uses_rule_engine() {
    let g = Generator::new(Some(backend("qwen-tiny")), RuleGenerator::new());
    let r = finished(g.step("user name", NamingStyle::Snake, true, Event::Start));
    assert_eq!(r.unwrap(), vec!["user_name".to_string()]);
    let r = finished(g.step("用户名", NamingStyle::Camel, true, Event::Start));
    assert_eq!(r.unwrap(), vec!["username".to_string()]);
}

#[test]
fn remote_failure_falls_back_to_local_result() {
    let g = Generator::new(Some(backend("qwen-tiny")), RuleGenerator::new());
    assert!(matches!(g.step("user name", NamingStyle::Snake, false, Event::Start), Action::Probe));
    assert!(matches!(g.step("user name", NamingStyle::Snake, false, Event::Probed(true)), Action::CallRemote));
    let failed = Event::RemoteFinished(Err(Error::LLMError("connection refused".to_string())));
    let fallback = finished(g.step("user name", NamingStyle::Snake, false, failed)).unwrap();
    let local = finished(g.step("user name", NamingStyle::Snake, true, Event::Start)).unwrap();
    assert_eq!(fallback, local);
    assert_eq!(fallback, vec!["user_name".to_string()]);
}

#[test]
fn unreachable_or_missing_backend_falls_back() {
    let with_remote = Generator::new(Some(backend("qwen-tiny")), RuleGenerator::new());
    let r = finished(with_remote.step("user name", NamingStyle::Kebab, false, Event::Probed(false)));
    assert_eq!(r.unwrap(), vec!["user-name".to_string()]);
    let without = Generator::new(None, RuleGenerator::new());
    let r = finished(without.step("user name", NamingStyle::Kebab, false, Event::Probed(true)));
    assert_eq!(r.unwrap(), vec!["user-name".to_string()]);
}

#[test]
fn remote_answer_is_passed_through() {
    let g = Generator::new(Some(backend("qwen-tiny")), RuleGenerator::new());
    let answer = vec!["userName".to_string(), "userNameText".to_string()];
    let r = finished(g.step("user name", NamingStyle::Camel, false, Event::RemoteFinished(Ok(answer.clone()))));
    assert_eq!(r.unwrap(), answer);
    let r = finished(g.step("user name", NamingStyle::Camel, false, Event::RemoteFinished(Ok(vec![]))));
    assert_eq!(r.unwrap(), vec!["userName".to_string()]);
}

#[test]
fn cached_reply_avoids_second_call() {
    let mut remote = backend("qwen-tiny");
    let (prompt, key) = match remote.generate("user name", NamingStyle::Snake) {
        RemoteStep::Request { prompt, cache_key } => (prompt, cache_key),
        other => panic!("expected a request, got {:?}", other),
    };
    assert!(prompt.contains("snake_case (e.g., user_name)"));
    assert!(prompt.ends_with("\nuser name"));
    assert_eq!(key, "user name:下划线命名法 (snake_case)");
    let names = remote.complete(&key, " user_name, name_of_user ,, ").unwrap();
    assert_eq!(names, vec!["user_name".to_string(), "name_of_user".to_string()]);
    match remote.generate("user name", NamingStyle::Snake) {
        RemoteStep::Cached(v) => assert_eq!(v, names),
        other => panic!("expected the cached reply, got {:?}", other),
    }
    assert!(matches!(remote.generate("user name", NamingStyle::Kebab), RemoteStep::Request { .. }));
}

#[test]
fn empty_reply_is_refused_and_not_cached() {
    let mut remote = backend("qwen-tiny");
    let key = LLMGenerator::cache_key("x", NamingStyle::Snake);
    assert!(matches!(remote.complete(&key, " , ,\n"), Err(Error::LLMError(_))));
    assert!(matches!(remote.generate("x", NamingStyle::Snake), RemoteStep::Request { .. }));
}

#[test]
fn backend_needs_a_credential_and_a_known_model() {
    assert!(matches!(LLMGenerator::new(None, "qwen-tiny".to_string()), Err(Error::LLMError(_))));
    assert_eq!(backend("qwen-tiny").call_api(), Ok(Provider::Qwen));
    assert_eq!(backend("xinghuo-lite").call_api(), Ok(Provider::Xinghuo));
    match backend("gpt").call_api() {
        Err(e) => assert_eq!(e.message(), "LLM error: Unsupported model: gpt"),
        Ok(p) => panic!("unexpected provider {:?}", p),
    }
}

#[test]
fn prompt_names_the_style() {
    let remote = backend("qwen-tiny");
    let p = remote.build_prompt("用户名", NamingStyle::UpperSnake);
    assert_eq!(
        p,
        "请根据以下描述生成符合UPPER_SNAKE_CASE (e.g., USER_NAME)格式的变量名，仅输出变量名，多个候选用逗号分隔，尽量用英文变量名，无需额外解释：\n用户名"
    );
    assert_eq!(remote.parse_response("a,b").unwrap(), vec!["a".to_string(), "b".to_string()]);
}
