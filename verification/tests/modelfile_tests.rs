use tilekit::modelfile::{parse, ModelfileError, ParamValue, Role, ValidationError};

#[test]
fn test_empty_modelfile() {
    let res = parse("");
    assert!(res.is_err());
}

#[test]
fn test_wrong_instruction() {
    assert!(parse("FRO llama").is_err());
}

#[test]
fn test_valid_modelfile() {
    let modelfile = "
            FROM llama3.2
            PARAMETER num_ctx 4096
        ";

    assert!(parse(modelfile).is_ok());
}

#[test]
fn valid_modelfile_fields() {
    let m = parse("FROM llama3.2\nPARAMETER num_ctx 4096\n").unwrap();
    assert_eq!(m.source_model, "llama3.2");
    assert_eq!(m.parameters.len(), 1);
    assert_eq!(m.parameters[0].name, "num_ctx");
    match &m.parameters[0].value {
        ParamValue::Int(v) => assert_eq!(*v, 4096),
        _ => panic!("num_ctx should be an integer parameter"),
    }
}

#[test]
fn determinism_same_text_same_object() {
    let text = "FROM m\nPARAMETER top_p 0.9\nMESSAGE user hi there\nSYSTEM be kind";
    let a = parse(text).unwrap();
    let b = parse(text).unwrap();
    assert_eq!(a.source_model, b.source_model);
    assert_eq!(a.parameters.len(), b.parameters.len());
    assert_eq!(a.system_prompt, b.system_prompt);
    assert_eq!(a.messages.len(), b.messages.len());
    assert_eq!(a.raw_text, b.raw_text);
}

#[test]
fn temperature_type_error_names_parameter() {
    let err = parse("PARAMETER temperature notanumber").unwrap_err();
    match err {
        ModelfileError::Validation(ValidationError::NotFloat(name)) => {
            assert_eq!(name, "temperature");
        }
        other => panic!("expected a float coercion error, got {:?}", other),
    }
}

#[test]
fn bogus_role_fails() {
    let err = parse("MESSAGE bogus hello").unwrap_err();
    match err {
        ModelfileError::Validation(ValidationError::UnknownRole(tok)) => {
            assert_eq!(tok, "bogus");
        }
        other => panic!("expected a role error, got {:?}", other),
    }
}

#[test]
fn repeated_from_last_wins() {
    let m = parse("FROM a\nFROM b").unwrap();
    assert_eq!(m.source_model, "b");
}

#[test]
fn triple_quoted_block_spans_lines() {
    let m = parse("FROM m\nSYSTEM \"\"\"line one\nline two\"\"\"").unwrap();
    assert_eq!(m.system_prompt.as_deref(), Some("line one\nline two"));
}

#[test]
fn single_quoted_argument() {
    let m = parse("FROM m\nTEMPLATE \"hello world\"").unwrap();
    assert_eq!(m.template.as_deref(), Some("hello world"));
}

#[test]
fn unterminated_quote_fails() {
    assert!(parse("FROM m\nTEMPLATE \"abc").is_err());
    assert!(parse("FROM m\nSYSTEM \"\"\"abc").is_err());
}

#[test]
fn comment_instruction_is_ignored() {
    let m = parse("# a note\nFROM m").unwrap();
    assert_eq!(m.source_model, "m");
    assert!(m.parameters.is_empty());
}

#[test]
fn keywords_match_any_case() {
    let m = parse("from m\npArAmEtEr SEED -5").unwrap();
    assert_eq!(m.source_model, "m");
    assert_eq!(m.parameters[0].name, "seed");
    match &m.parameters[0].value {
        ParamValue::Int(v) => assert_eq!(*v, -5),
        _ => panic!("seed should be an integer parameter"),
    }
}

#[test]
fn unknown_parameter_names_token() {
    let err = parse("FROM m\nPARAMETER foo 1").unwrap_err();
    match err {
        ModelfileError::Validation(ValidationError::UnknownParameter(tok)) => {
            assert_eq!(tok, "foo");
        }
        other => panic!("expected an unknown-parameter error, got {:?}", other),
    }
}

#[test]
fn parameter_needs_exactly_two_tokens() {
    assert!(matches!(
        parse("FROM m\nPARAMETER num_ctx").unwrap_err(),
        ModelfileError::Validation(ValidationError::MalformedParameter)
    ));
    assert!(matches!(
        parse("FROM m\nPARAMETER num_ctx 1 2").unwrap_err(),
        ModelfileError::Validation(ValidationError::MalformedParameter)
    ));
}

#[test]
fn missing_from_fails_build() {
    assert!(matches!(
        parse("SYSTEM hi").unwrap_err(),
        ModelfileError::Validation(ValidationError::MissingSource)
    ));
}

#[test]
fn last_command_error_wins() {
    // two failing commands: only the second is reported
    let err = parse("FROM m\nPARAMETER foo 1\nMESSAGE bogus hi").unwrap_err();
    assert!(matches!(
        err,
        ModelfileError::Validation(ValidationError::UnknownRole(_))
    ));
}

#[test]
fn integer_out_of_range_fails() {
    let err = parse("FROM m\nPARAMETER num_ctx 99999999999").unwrap_err();
    match err {
        ModelfileError::Validation(ValidationError::NotInteger(name)) => {
            assert_eq!(name, "num_ctx");
        }
        other => panic!("expected an integer coercion error, got {:?}", other),
    }
}

#[test]
fn float_tokens_accepted_and_kept_verbatim() {
    let m = parse("FROM m\nPARAMETER top_p 0.9\nPARAMETER min_p .5\nPARAMETER temperature 1e3\nPARAMETER repeat_penalty inf").unwrap();
    let texts: Vec<&str> = m
        .parameters
        .iter()
        .map(|p| match &p.value {
            ParamValue::Float(t) => t.as_str(),
            _ => panic!("expected float parameters"),
        })
        .collect();
    assert_eq!(texts, vec!["0.9", ".5", "1e3", "inf"]);
}

#[test]
fn stop_value_strips_surrounding_quotes() {
    let m = parse("FROM m\nPARAMETER stop \"x\"").unwrap();
    assert_eq!(m.parameters[0].name, "stop");
    match &m.parameters[0].value {
        ParamValue::Str(t) => assert_eq!(t, "x"),
        _ => panic!("stop should be a string parameter"),
    }
}

#[test]
fn message_splits_role_and_content() {
    let m = parse("FROM m\nMESSAGE USER hello there  ").unwrap();
    assert_eq!(m.messages.len(), 1);
    assert!(matches!(m.messages[0].role, Role::User));
    assert_eq!(m.messages[0].content, "hello there");
}

#[test]
fn message_without_content_fails() {
    assert!(matches!(
        parse("FROM m\nMESSAGE \"system\"").unwrap_err(),
        ModelfileError::Validation(ValidationError::MalformedMessage)
    ));
}

#[test]
fn trailing_garbage_fails_whole_parse() {
    // an unterminated quoted argument after a valid command dooms the document
    assert!(parse("FROM m\nTEMPLATE \"oops").is_err());
}

#[test]
fn whitespace_only_input_fails() {
    assert!(parse("   \n\t  ").is_err());
}

#[test]
fn raw_text_is_retained() {
    let text = "FROM m\nSYSTEM hi";
    let m = parse(text).unwrap();
    assert_eq!(m.raw_text, text);
}
