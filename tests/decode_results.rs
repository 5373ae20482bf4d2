use kclvm_runner::decode::{
    check_panic_marker, decode_and_render, decode_exec_result, json_text_is_truthy, render_err_message,
    wrap_msg_in_result, DecodeError, EvaluationDiagnostic,
};
use kclvm_runner::runner::ExecProgramResult;

const CAP: usize = 64;

fn buffer(content: &[u8]) -> Vec<u8> {
    let mut b = vec![0u8; CAP];
    b[..content.len()].copy_from_slice(content);
    b
}


#[test]
fn successful_document_round_trips() {
    let doc = br#"{"a": 1}"#;
    assert_eq!(doc.len(), 8);
    let mut content = doc.to_vec();
    content.push(b'\n');
    let r = decode_exec_result(9, &buffer(&content), &buffer(b""), &buffer(b"log"), 3).unwrap();
    let expected: serde_json::Value = serde_json::from_str(r#"{"a": 1}"#).unwrap();
    let json: serde_json::Value = serde_json::from_str(&r.json_result).unwrap();
    let yaml: serde_json::Value = serde_json::from_str(&r.yaml_result).unwrap();
    assert_eq!(json, expected);
    assert_eq!(yaml, expected);
    assert_eq!(r.err_message, "");
    assert_eq!(r.log_message, "log");
}

#[test]
fn panic_marker_turns_output_into_failure() {
    let doc = br#"{"__kcl_PanicInfo__": true, "message": "oops"}"#;
    let r = decode_exec_result(doc.len() as i32, &buffer(doc), &buffer(b""), &buffer(b""), 0)
        .unwrap();
    assert_eq!(r.err_message.as_bytes(), doc);
    let r = render_err_message(r, &EvaluationDiagnostic);
    assert!(r.err_message.starts_with("error[E3M38]: EvaluationError\n"));
    assert!(r.err_message.contains("__kcl_PanicInfo__"));
    assert_eq!(r.json_result, "");
    assert_eq!(r.yaml_result, "");
}

#[test]
fn false_panic_marker_is_a_result() {
    let doc = br#"{"__kcl_PanicInfo__": false, "a": 2}"#;
    let r = decode_exec_result(doc.len() as i32, &buffer(doc), &buffer(b""), &buffer(b""), 0)
        .unwrap();
    assert_eq!(r.err_message, "");
    assert_eq!(r.json_result.as_bytes(), doc);
}

#[test]
fn negative_code_reads_the_warning_buffer() {
    let r = decode_exec_result(-5, &buffer(b""), &buffer(b"boom!trailing"), &buffer(b""), 0)
        .unwrap();
    assert_eq!(r.err_message, "boom!");
    let r = render_err_message(r, &EvaluationDiagnostic);
    assert!(r.err_message.contains("boom!"));
    assert_eq!(r.err_message, "error[E3M38]: EvaluationError\nboom!\n");
    assert_eq!(r.json_result, "");
    assert_eq!(r.yaml_result, "");
}

#[test]
fn zero_code_is_an_empty_success() {
    let r = decode_exec_result(0, &buffer(b"ignored"), &buffer(b"ignored"), &buffer(b""), 0)
        .unwrap();
    assert_eq!(r.json_result, "");
    assert_eq!(r.err_message, "");
}

#[test]
fn lengths_past_the_buffers_are_truncation() {
    let small = vec![0u8; 4];
    assert_eq!(
        decode_exec_result(4, &small, &small, &small, 0).unwrap_err(),
        DecodeError::Truncated
    );
    assert_eq!(
        decode_exec_result(-4, &small, &small, &small, 0).unwrap_err(),
        DecodeError::Truncated
    );
    assert_eq!(
        decode_exec_result(0, &small, &small, &small, 4).unwrap_err(),
        DecodeError::Truncated
    );
    assert!(decode_exec_result(3, &buffer(b"[1]"), &small, &small, 3).is_ok());
    assert_eq!(
        decode_exec_result(5, &small, &small, &small, 0).unwrap_err(),
        DecodeError::Truncated
    );
    assert_eq!(
        decode_exec_result(-5, &small, &small, &small, 0).unwrap_err(),
        DecodeError::Truncated
    );
    assert_eq!(
        decode_exec_result(0, &small, &small, &small, 5).unwrap_err(),
        DecodeError::Truncated
    );
    assert_eq!(
        decode_exec_result(0, &small, &small, &small, -1).unwrap_err(),
        DecodeError::Truncated
    );
    assert_eq!(
        decode_exec_result(i32::MIN, &small, &small, &small, 0).unwrap_err(),
        DecodeError::Truncated
    );
}

#[test]
fn invalid_utf8_is_rejected() {
    let bad = buffer(&[0xff, 0xfe]);
    assert_eq!(
        decode_exec_result(2, &bad, &buffer(b""), &buffer(b""), 0).unwrap_err(),
        DecodeError::InvalidUtf8
    );
    assert_eq!(
        decode_exec_result(-2, &buffer(b""), &bad, &buffer(b""), 0).unwrap_err(),
        DecodeError::InvalidUtf8
    );
    assert_eq!(
        decode_exec_result(0, &buffer(b""), &buffer(b""), &bad, 2).unwrap_err(),
        DecodeError::InvalidUtf8
    );
}

#[test]
fn a_document_that_does_not_parse_is_an_error() {
    let r = decode_exec_result(3, &buffer(b"{a:"), &buffer(b""), &buffer(b""), 0).unwrap();
    assert!(!r.err_message.is_empty());
    assert_eq!(r.json_result, "");
    assert!(wrap_msg_in_result("[1, 2").is_err());
}

#[test]
fn wrap_keeps_the_document_text() {
    assert_eq!(wrap_msg_in_result("[1, 2]"), Ok("[1, 2]".to_string()));
    assert_eq!(
        wrap_msg_in_result(r#"{"__kcl_PanicInfo__": 1}"#),
        Err(r#"{"__kcl_PanicInfo__": 1}"#.to_string())
    );
    assert_eq!(
        wrap_msg_in_result(r#"{"__kcl_PanicInfo__": 0.0}"#),
        Ok(r#"{"__kcl_PanicInfo__": 0.0}"#.to_string())
    );
}

#[test]
fn truthiness_of_json_text() {
    for falsy in ["null", "false", "\"\"", "[]", "{}", "0", "-0", "0.0", "0e5"] {
        assert!(!json_text_is_truthy(falsy), "{falsy}");
    }
    for truthy in ["true", "1", "0.5", "\"a\"", "[0]", "{\"k\":0}", "2e0"] {
        assert!(json_text_is_truthy(truthy), "{truthy}");
    }
}

#[test]
fn marker_check_on_given_markers() {
    assert_eq!(check_panic_marker("doc", None), Ok("doc".to_string()));
    assert_eq!(check_panic_marker("doc", Some("true".to_string())), Err("doc".to_string()));
    assert_eq!(check_panic_marker("doc", Some("false".to_string())), Ok("doc".to_string()));
}

#[test]
fn rendering_leaves_success_alone() {
    let r = ExecProgramResult {
        json_result: "{}".to_string(),
        yaml_result: "{}".to_string(),
        log_message: String::new(),
        err_message: String::new(),
    };
    let out = render_err_message(r.clone(), &EvaluationDiagnostic);
    assert_eq!(out.err_message, "");
    assert_eq!(out.json_result, "{}");
}

#[test]
fn decode_and_render_chains_both_steps() {
    let r = decode_and_render(-5, &buffer(b""), &buffer(b"boom!"), &buffer(b""), 0, &EvaluationDiagnostic)
        .unwrap();
    assert_eq!(r.err_message, "error[E3M38]: EvaluationError\nboom!\n");
    let r = decode_and_render(3, &buffer(b"[1]"), &buffer(b""), &buffer(b""), 0, &EvaluationDiagnostic)
        .unwrap();
    assert_eq!(r.json_result, "[1]");
    assert_eq!(r.err_message, "");
    assert_eq!(
        decode_and_render(64, &buffer(b""), &buffer(b""), &buffer(b""), 0, &EvaluationDiagnostic)
            .unwrap_err(),
        DecodeError::Truncated
    );
}
