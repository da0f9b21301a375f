use aya_log_core::cargo_messages::{
    nesting_of, on_line, on_message, warning_lines, BuildMessage, BuildStep, TooDeep,
    MAX_NESTING,
};

const ARTIFACT: &str = r#"{"reason":"compiler-artifact","package_id":"path+file:///x#demo@0.1.0","manifest_path":"/x/Cargo.toml","target":{"kind":["bin"],"crate_types":["bin"],"name":"demo","src_path":"/x/src/main.rs","edition":"2021","doc":true,"doctest":false,"test":true},"profile":{"opt_level":"0","debuginfo":2,"debug_assertions":true,"overflow_checks":true,"test":false},"features":[],"filenames":["/x/target/debug/demo"],"executable":"/x/target/debug/demo","fresh":false}"#;

const LIBRARY: &str = r#"{"reason":"compiler-artifact","package_id":"path+file:///x#demo@0.1.0","manifest_path":"/x/Cargo.toml","target":{"kind":["lib"],"crate_types":["lib"],"name":"demo","src_path":"/x/src/lib.rs","edition":"2021","doc":true,"doctest":true,"test":true},"profile":{"opt_level":"0","debuginfo":2,"debug_assertions":true,"overflow_checks":true,"test":false},"features":[],"filenames":["/x/target/debug/libdemo.rlib"],"executable":null,"fresh":false}"#;

const WARNING: &str = r#"{"reason":"compiler-message","package_id":"path+file:///x#demo@0.1.0","manifest_path":"/x/Cargo.toml","target":{"kind":["bin"],"crate_types":["bin"],"name":"demo","src_path":"/x/src/main.rs","edition":"2021","doc":true,"doctest":false,"test":true},"message":{"rendered":"warning: unused variable\n --> src/main.rs:1:1\n","$message_type":"diagnostic","children":[],"code":null,"level":"warning","message":"unused variable","spans":[]}}"#;

const FINISHED: &str = r#"{"reason":"build-finished","success":true}"#;

#[test]
fn an_artifact_with_an_executable_is_taken_note_of() {
    let step = on_line(ARTIFACT).unwrap().unwrap();
    assert_eq!(
        step,
        BuildStep::Executable { name: "demo".to_string(), path: "/x/target/debug/demo".to_string() }
    );
    // the line's end does not belong to the message
    assert_eq!(on_line(&format!("{ARTIFACT}\n")), Ok(Some(step)));
}

#[test]
fn an_artifact_without_an_executable_asks_for_nothing() {
    assert_eq!(on_line(LIBRARY), Ok(Some(BuildStep::Nothing)));
}

#[test]
fn a_compiler_message_is_printed_as_warnings() {
    assert_eq!(
        on_line(WARNING),
        Ok(Some(BuildStep::Print(vec![
            b"cargo:warning=warning: unused variable".to_vec(),
            b"cargo:warning= --> src/main.rs:1:1".to_vec(),
            b"cargo:warning=".to_vec(),
        ])))
    );
}

#[test]
fn text_that_is_no_message_is_printed_as_it_is() {
    assert_eq!(
        on_line("   Compiling demo v0.1.0\n"),
        Ok(Some(BuildStep::Print(vec![b"   Compiling demo v0.1.0".to_vec()])))
    );
    assert_eq!(on_line("\n"), Ok(Some(BuildStep::Print(vec![b"".to_vec()]))));
    assert_eq!(
        on_line("{\"reason\":\"unknown\"}"),
        Ok(Some(BuildStep::Print(vec![b"{\"reason\":\"unknown\"}".to_vec()])))
    );
}

#[test]
fn other_messages_ask_for_nothing() {
    assert_eq!(on_line(FINISHED), Ok(Some(BuildStep::Nothing)));
}

#[test]
fn empty_text_holds_no_message() {
    assert_eq!(on_line(""), Ok(None));
}

#[test]
fn only_the_first_line_is_read() {
    assert_eq!(
        on_line(&format!("{FINISHED}\n{ARTIFACT}\n")),
        Ok(Some(BuildStep::Nothing))
    );
}

#[test]
fn steps_for_messages() {
    assert_eq!(
        on_message(BuildMessage::CompilerArtifact {
            name: "a".to_string(),
            executable: Some("/p/a".to_string())
        }),
        BuildStep::Executable { name: "a".to_string(), path: "/p/a".to_string() }
    );
    assert_eq!(
        on_message(BuildMessage::CompilerArtifact { name: "a".to_string(), executable: None }),
        BuildStep::Nothing
    );
    assert_eq!(
        on_message(BuildMessage::CompilerMessage { rendered: None }),
        BuildStep::Print(vec![b"cargo:warning=".to_vec()])
    );
    assert_eq!(
        on_message(BuildMessage::CompilerMessage { rendered: Some("x\ny".to_string()) }),
        BuildStep::Print(vec![b"cargo:warning=x".to_vec(), b"cargo:warning=y".to_vec()])
    );
    assert_eq!(
        on_message(BuildMessage::TextLine("größe".to_string())),
        BuildStep::Print(vec!["größe".as_bytes().to_vec()])
    );
    assert_eq!(on_message(BuildMessage::Other), BuildStep::Nothing);
}

#[test]
fn nesting_counts_arrays_and_objects_outside_strings() {
    assert_eq!(nesting_of(b""), 0);
    assert_eq!(nesting_of(b"plain text"), 0);
    assert_eq!(nesting_of(b"{}"), 1);
    assert_eq!(nesting_of(b"[[],{}]"), 2);
    assert_eq!(nesting_of(b"{\"a\":[{\"b\":[1,2]}]}"), 4);
    assert_eq!(nesting_of(b"\"[[[[\""), 0);
    assert_eq!(nesting_of(b"[\"a\\\"[[\", [1]]"), 2);
    assert_eq!(nesting_of(b"]]]}[["), 2);
    assert_eq!(nesting_of(b"[][][]"), 1);
    assert_eq!(nesting_of(ARTIFACT.as_bytes()), 3);
}

#[test]
fn text_that_is_nested_too_deeply_is_not_read() {
    let fits = format!("{}{}", "[".repeat(MAX_NESTING), "]".repeat(MAX_NESTING));
    assert_eq!(nesting_of(fits.as_bytes()), 127);
    assert_eq!(on_line(&fits), Ok(Some(BuildStep::Print(vec![fits.clone().into_bytes()]))));
    let deep = format!("[{fits}]");
    assert_eq!(nesting_of(deep.as_bytes()), 128);
    assert_eq!(on_line(&deep), Err(TooDeep));
    let very_deep = "{\"a\":".repeat(100_000);
    assert_eq!(on_line(&very_deep), Err(TooDeep));
}

#[test]
fn compiler_warnings() {
    assert_eq!(warning_lines(None), vec![b"cargo:warning=".to_vec()]);
    assert_eq!(warning_lines(Some(b"")), vec![b"cargo:warning=".to_vec()]);
    assert_eq!(
        warning_lines(Some(b"warning: x\n --> y\n")),
        vec![
            b"cargo:warning=warning: x".to_vec(),
            b"cargo:warning= --> y".to_vec(),
            b"cargo:warning=".to_vec()
        ]
    );
}

