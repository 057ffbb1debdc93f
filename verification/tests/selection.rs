use memreader::error::InspectError;
use memreader::pass::Request;
use memreader::region::MemoryRegion;
use memreader::selection::{Panel, Selection, NO_SELECTION};

#[test]
fn nothing_is_shown_before_a_process_is_chosen() {
    let selection = Selection::none();
    assert_eq!(selection.target(), None);
    assert_eq!(selection.panel(), Panel::Nothing);
}

#[test]
fn default_selection_is_no_selection() {
    assert_eq!(Selection::default(), Selection::none());
    assert_eq!(Selection::default().panel(), Panel::Nothing);
}

#[test]
fn no_selection_is_the_largest_identifier() {
    assert_eq!(NO_SELECTION, usize::MAX);
}

#[test]
fn chosen_process_is_inspected() {
    let mut selection = Selection::none();
    selection.select(4242);
    assert_eq!(selection.target(), Some(4242));
    assert_eq!(selection.panel(), Panel::Inspect(4242));
}

#[test]
fn message_stands_in_place_of_results() {
    let mut selection = Selection::none();
    selection.select(4242);
    selection.report("process went away".to_string());
    assert_eq!(selection.target(), Some(4242));
    assert_eq!(selection.panel(), Panel::Message("process went away".to_string()));
}

#[test]
fn message_without_a_target_shows_nothing() {
    let mut selection = Selection::none();
    selection.report("stale".to_string());
    assert_eq!(selection.panel(), Panel::Nothing);
}

#[test]
fn choosing_another_process_starts_afresh() {
    let mut selection = Selection::none();
    selection.select(4242);
    selection.report("process went away".to_string());
    selection.select(17);
    assert_eq!(selection.panel(), Panel::Inspect(17));
}

#[test]
fn choosing_the_sentinel_selects_nothing() {
    let mut selection = Selection::none();
    selection.select(17);
    selection.select(NO_SELECTION);
    assert_eq!(selection.target(), None);
    assert_eq!(selection.panel(), Panel::Nothing);
}

#[test]
fn cleared_message_lets_the_next_refresh_inspect() {
    let mut selection = Selection::none();
    selection.select(17);
    selection.report("busy".to_string());
    selection.clear_message();
    assert_eq!(selection.panel(), Panel::Inspect(17));
}

#[test]
fn reported_failure_shows_its_message() {
    let mut selection = Selection::none();
    selection.select(4242);
    selection.report_failure(&InspectError::ProcessAttach("no such process".to_string()));
    assert_eq!(
        selection.panel(),
        Panel::Message("cannot attach to the process: no such process".to_string())
    );
}

#[test]
fn good_reading_is_shown_and_leaves_the_selection_alone() {
    let mut selection = Selection::none();
    selection.select(4242);
    let reading = Ok(vec![
        MemoryRegion::mapped(0x1000, 4096, "/usr/lib/libc.so".to_string()),
        MemoryRegion::anonymous(0x9000, 64),
    ]);
    let map = selection.take_reading(reading).expect("the reading was good");
    assert_eq!(map.file_count(), 1);
    assert_eq!(map.size_at("/usr/lib/libc.so", 0x1000), Some(4096));
    assert_eq!(selection.panel(), Panel::Inspect(4242));
}

#[test]
fn failed_reading_is_shown_as_an_access_failure() {
    let mut selection = Selection::none();
    selection.select(4242);
    let shown = selection.take_reading(Err("No such file or directory".to_string()));
    assert!(shown.is_none());
    assert_eq!(selection.target(), Some(4242));
    assert_eq!(
        selection.panel(),
        Panel::Message("cannot read the memory map: No such file or directory".to_string())
    );
}

#[test]
fn pass_begins_for_the_selected_process() {
    let mut selection = Selection::none();
    selection.select(4242);
    let pass = selection.begin_pass(true).expect("a process is selected");
    assert_eq!(pass.pending(), Request::Attach { pid: 4242 });
}

#[test]
fn no_pass_begins_without_a_target() {
    assert!(Selection::none().begin_pass(true).is_none());
}

#[test]
fn no_pass_begins_while_a_message_is_shown() {
    let mut selection = Selection::none();
    selection.select(4242);
    selection.report("gone".to_string());
    assert!(selection.begin_pass(false).is_none());
    selection.clear_message();
    assert!(selection.begin_pass(false).is_some());
}
