use memreader::error::InspectError;

#[test]
fn access_failure_message() {
    let error = InspectError::ProcessAccess("permission denied".to_string());
    assert_eq!(error.message(), "cannot read the memory map: permission denied");
    assert_eq!(error.detail(), "permission denied");
}

#[test]
fn attach_failure_message() {
    let error = InspectError::ProcessAttach("no such process".to_string());
    assert_eq!(error.message(), "cannot attach to the process: no such process");
    assert_eq!(error.detail(), "no such process");
}

#[test]
fn unwind_failure_message() {
    let error = InspectError::UnwindStep("bad frame pointer".to_string());
    assert_eq!(error.message(), "stack unwinding failed: bad frame pointer");
    assert_eq!(error.detail(), "bad frame pointer");
}

#[test]
fn resolution_failure_message() {
    let error = InspectError::SymbolResolution("corrupt debug data".to_string());
    assert_eq!(error.message(), "symbol resolution failed: corrupt debug data");
    assert_eq!(error.detail(), "corrupt debug data");
}

#[test]
fn message_with_empty_detail_is_the_heading() {
    let error = InspectError::UnwindStep(String::new());
    assert_eq!(error.message(), "stack unwinding failed: ");
}
