use ai_browser::action_executor::{
    implicit_target, plan, resolve_target, settle_click, settle_enter, settle_goto,
    settle_type, Action, ExecError, FindRequest, HistoryEntry, HtmlElementIdentifier, Plan,
};
use ai_browser::cmd_functions::{new_email_addr, new_first_name};
use ai_browser::cmd_parser::{
    extract_html_identifier, load_script, parse, parse_commands_from_content,
    parse_expression, replace_placeholders, LoadError, ParseError, ScriptFile,
};

fn file(path: &str, content: &str) -> ScriptFile {
    ScriptFile { path: path.to_string(), content: content.to_string() }
}

// A protocol client stand-in that records every call it is asked to make.
struct FakeClient {
    calls: Vec<String>,
    // The handles a find-by-id for "submit" yields.
    submit_handle: u64,
}

impl FakeClient {
    fn new() -> FakeClient {
        FakeClient { calls: Vec::new(), submit_handle: 1 }
    }

    fn find(&mut self, req: &FindRequest) -> Vec<u64> {
        match req {
            FindRequest::ById(x) => {
                self.calls.push(format!("find-by-id({x})"));
                if x == "submit" {
                    vec![self.submit_handle]
                } else {
                    vec![]
                }
            },
            FindRequest::AllByName(x) => {
                self.calls.push(format!("find-all-by-name({x})"));
                vec![]
            },
            FindRequest::AllByClass(x) => {
                self.calls.push(format!("find-all-by-class({x})"));
                vec![]
            },
        }
    }

    fn click(&mut self, h: u64) -> bool {
        self.calls.push(format!("click({h})"));
        true
    }

    fn send_keys(&mut self, h: u64, text: &str) -> bool {
        self.calls.push(format!("send-keys({h}, {text})"));
        true
    }

    fn navigate(&mut self, url: &str) -> bool {
        self.calls.push(format!("navigate({url})"));
        true
    }
}

// The loop a surrounding program runs: plan each action, make the call the
// plan asks for, and settle the outcome into the history.
fn run_actions(actions: &[Action], client: &mut FakeClient, history: &mut Vec<HistoryEntry>) {
    for a in actions {
        match plan(a, history) {
            Plan::Find(req) => {
                let id = match a {
                    Action::Click(id) => id.clone(),
                    _ => unreachable!(),
                };
                let found = client.find(&req);
                match resolve_target(&id, &found) {
                    Ok(h) => {
                        let ok = client.click(h);
                        settle_click(history, id, h, ok);
                    },
                    Err(_) => {},
                }
            },
            Plan::Navigate(url) => {
                let ok = client.navigate(&url);
                settle_goto(history, url, ok);
            },
            Plan::SendKeys(h, text) => {
                let ok = client.send_keys(h, &text);
                settle_type(history, text, h, ok);
            },
            Plan::SendEnter(h) => {
                let ok = client.send_keys(h, "ENTER");
                settle_enter(history, h, ok);
            },
            Plan::LoadScript(_) => {},
            Plan::Skip(_) => {},
        }
    }
}

#[test]
fn identifier_id_single_argument() {
    let r = extract_html_identifier("id(foo)".to_string());
    assert_eq!(r, Ok(HtmlElementIdentifier::Id("foo".to_string())));
}

#[test]
fn identifier_class_with_index() {
    let r = extract_html_identifier("class(bar, 2)".to_string());
    assert_eq!(r, Ok(HtmlElementIdentifier::Class("bar".to_string(), 2)));
}

#[test]
fn identifier_class_missing_index_is_malformed() {
    let r = extract_html_identifier("class(bar)".to_string());
    assert_eq!(r, Err(ParseError::MalformedIdentifier));
}

#[test]
fn identifier_name_with_index() {
    let r = extract_html_identifier("name(user, 1)".to_string());
    assert_eq!(r, Ok(HtmlElementIdentifier::Name("user".to_string(), 1)));
}

#[test]
fn identifier_unknown_kind_is_malformed() {
    let r = extract_html_identifier("xpath(foo)".to_string());
    assert_eq!(r, Err(ParseError::MalformedIdentifier));
}

#[test]
fn identifier_id_extra_argument_is_malformed() {
    let r = extract_html_identifier("id(foo, 2)".to_string());
    assert_eq!(r, Err(ParseError::MalformedIdentifier));
}

#[test]
fn identifier_negative_index_is_malformed() {
    let r = extract_html_identifier("class(bar, -1)".to_string());
    assert_eq!(r, Err(ParseError::MalformedIdentifier));
}

#[test]
fn identifier_huge_index_is_malformed() {
    let r = extract_html_identifier("class(bar, 184467440737095516150)".to_string());
    assert_eq!(r, Err(ParseError::MalformedIdentifier));
}

#[test]
fn expression_fields_are_trimmed() {
    let parts = parse_expression("class( bar , 2 )");
    assert_eq!(parts, vec!["class".to_string(), "bar".to_string(), "2".to_string()]);
}

#[test]
fn expression_strips_closing_parentheses_of_last_field() {
    let parts = parse_expression("id(foo))");
    assert_eq!(parts, vec!["id".to_string(), "foo".to_string()]);
}

#[test]
fn parse_type_keeps_argument() {
    let r = parse("type hello world".to_string());
    assert_eq!(r, Ok(vec![Action::Type("hello world".to_string())]));
}

#[test]
fn parse_goto_keeps_url() {
    let r = parse("goto https://example.com".to_string());
    assert_eq!(r, Ok(vec![Action::GoTo("https://example.com".to_string())]));
}

#[test]
fn parse_click_builds_identifier() {
    let r = parse("click id(submit)".to_string());
    assert_eq!(
        r,
        Ok(vec![Action::Click(HtmlElementIdentifier::Id("submit".to_string()))])
    );
}

#[test]
fn parse_execute_names_script() {
    let r = parse("execute other.script".to_string());
    assert_eq!(r, Ok(vec![Action::RunScript("other.script".to_string())]));
}

#[test]
fn parse_bare_enter() {
    let r = parse("enter".to_string());
    assert_eq!(r, Ok(vec![Action::PressEnter]));
}

#[test]
fn parse_enter_ignores_remainder() {
    let r = parse("enter now".to_string());
    assert_eq!(r, Ok(vec![Action::PressEnter]));
}

#[test]
fn parse_unknown_verb() {
    let r = parse("frobnicate x".to_string());
    assert_eq!(r, Err(ParseError::UnknownCommand));
}

#[test]
fn parse_missing_separator() {
    let r = parse("hello".to_string());
    assert_eq!(r, Err(ParseError::MissingSeparator));
}

#[test]
fn parse_click_malformed_argument() {
    let r = parse("click foo".to_string());
    assert_eq!(r, Err(ParseError::MalformedIdentifier));
}

#[test]
fn implicit_target_tracks_most_recent_click() {
    let mut history: Vec<HistoryEntry> = Vec::new();
    settle_click(
        &mut history,
        HtmlElementIdentifier::Id("a".to_string()),
        7,
        true,
    );
    settle_goto(&mut history, "https://example.com".to_string(), true);
    settle_enter(&mut history, 7, true);
    settle_type(&mut history, "x".to_string(), 7, true);
    assert_eq!(implicit_target(&history), Some(7));
    settle_click(
        &mut history,
        HtmlElementIdentifier::Id("b".to_string()),
        9,
        true,
    );
    assert_eq!(implicit_target(&history), Some(9));
}

#[test]
fn failed_outcomes_leave_history_unchanged() {
    let mut history: Vec<HistoryEntry> = Vec::new();
    settle_click(
        &mut history,
        HtmlElementIdentifier::Id("a".to_string()),
        7,
        false,
    );
    settle_goto(&mut history, "u".to_string(), false);
    settle_type(&mut history, "x".to_string(), 7, false);
    settle_enter(&mut history, 7, false);
    assert_eq!(history.len(), 0);
    assert_eq!(implicit_target(&history), None);
}

#[test]
fn type_and_enter_without_click_are_skipped() {
    let history: Vec<HistoryEntry> = Vec::new();
    let p1 = plan(&Action::Type("hello".to_string()), &history);
    assert_eq!(p1, Plan::Skip(ExecError::NoImplicitTarget));
    let p2 = plan(&Action::PressEnter, &history);
    assert_eq!(p2, Plan::Skip(ExecError::NoImplicitTarget));
}

#[test]
fn resolution_errors() {
    let id = HtmlElementIdentifier::Id("a".to_string());
    assert_eq!(resolve_target(&id, &vec![]), Err(ExecError::ElementNotFound));
    let by_name = HtmlElementIdentifier::Name("a".to_string(), 5);
    assert_eq!(resolve_target(&by_name, &vec![3, 4]), Err(ExecError::IndexOutOfRange));
    let by_class = HtmlElementIdentifier::Class("a".to_string(), 1);
    assert_eq!(resolve_target(&by_class, &vec![3, 4]), Ok(4));
}

#[test]
fn end_to_end_call_sequence() {
    let (actions, fails) =
        parse_commands_from_content("click id(submit)\ntype hello\nenter\n");
    assert_eq!(fails.len(), 0);
    assert_eq!(actions.len(), 3);
    let mut client = FakeClient::new();
    let mut history: Vec<HistoryEntry> = Vec::new();
    run_actions(&actions, &mut client, &mut history);
    assert_eq!(
        client.calls,
        vec![
            "find-by-id(submit)".to_string(),
            "click(1)".to_string(),
            "send-keys(1, hello)".to_string(),
            "send-keys(1, ENTER)".to_string(),
        ]
    );
}

#[test]
fn placeholder_expansion_is_fresh_each_time() {
    let a = replace_placeholders("type @NewFirstName".to_string());
    let b = replace_placeholders("type @NewFirstName".to_string());
    assert!(!a.contains("@NewFirstName"));
    assert!(!b.contains("@NewFirstName"));
    assert!(a.starts_with("type "));
    assert!(b.starts_with("type "));
    assert!(a.len() > "type ".len());
}

#[test]
fn placeholder_email_expansion() {
    let a = replace_placeholders("type @NewEmailAddress".to_string());
    assert!(!a.contains("@NewEmailAddress"));
    assert!(a.starts_with("type "));
    assert!(a.contains('@'));
}

#[test]
fn generated_values_avoid_tokens() {
    let n = new_first_name();
    assert!(!n.is_empty());
    assert!(n.chars().all(|c| c.is_ascii_alphanumeric()));
    let m = new_email_addr();
    assert!(!m.is_empty());
    assert!(m.contains("@e"));
    assert!(!m.contains("@NewEmailAddress"));
}

#[test]
fn nested_execute_flattens_in_order() {
    let files = vec![
        file("main.script", "execute other.script\n"),
        file("other.script", "goto https://example.com\nclick id(submit)\n"),
    ];
    let mut log = Vec::new();
    let direct = load_script(&files, "other.script", 8, &mut log).unwrap();
    let nested = load_script(&files, "main.script", 8, &mut log).unwrap();
    assert_eq!(nested, direct);
    assert_eq!(
        nested,
        vec![
            Action::GoTo("https://example.com".to_string()),
            Action::Click(HtmlElementIdentifier::Id("submit".to_string())),
        ]
    );
    assert_eq!(log.len(), 0);
}

#[test]
fn missing_nested_script_fails_the_load() {
    let files = vec![file("main.script", "goto https://a\nexecute other.script\n")];
    let mut log = Vec::new();
    let r = load_script(&files, "main.script", 8, &mut log);
    assert_eq!(r, Err(LoadError::FileNotFound("other.script".to_string())));
}

#[test]
fn missing_top_script_fails_the_load() {
    let files: Vec<ScriptFile> = Vec::new();
    let mut log = Vec::new();
    let r = load_script(&files, "nowhere.script", 8, &mut log);
    assert_eq!(r, Err(LoadError::FileNotFound("nowhere.script".to_string())));
}

#[test]
fn self_recursion_is_cut_off() {
    let files = vec![file("loop.script", "execute loop.script\n")];
    let mut log = Vec::new();
    let r = load_script(&files, "loop.script", 8, &mut log);
    assert_eq!(r, Err(LoadError::TooDeep));
}

#[test]
fn comments_and_blanks_contribute_nothing() {
    let content = "// a comment\n\n   \n\t\n// another // one\n";
    let (actions, fails) = parse_commands_from_content(content);
    assert_eq!(actions.len(), 0);
    assert_eq!(fails.len(), 0);
}

#[test]
fn failing_lines_are_recorded_and_skipped() {
    let content = "goto https://a\nnonsense\nbad verb\nenter\n";
    let (actions, fails) = parse_commands_from_content(content);
    assert_eq!(
        actions,
        vec![Action::GoTo("https://a".to_string()), Action::PressEnter]
    );
    assert_eq!(fails.len(), 2);
    assert_eq!(fails[0].line, "nonsense");
    assert_eq!(fails[0].error, ParseError::MissingSeparator);
    assert_eq!(fails[1].line, "bad verb");
    assert_eq!(fails[1].error, ParseError::UnknownCommand);
}

#[test]
fn script_lines_are_trimmed_before_parsing() {
    let (actions, fails) = parse_commands_from_content("   enter   \r\n  goto u\r\n");
    assert_eq!(fails.len(), 0);
    assert_eq!(actions, vec![Action::PressEnter, Action::GoTo("u".to_string())]);
}
