//! Tests for the object header, the work list, and diagnostics.

use inko::diagnostics::{DiagnosticLevel, Diagnostics};
use inko::object_header::ObjectHeader;
use inko::object_pointer::ObjectPointer;
use inko::work_list::WorkList;

#[test]
fn fresh_header_is_bare_and_truthy() {
    let header = ObjectHeader::new();
    assert!(header.name.is_none());
    assert!(header.attributes.is_empty());
    assert!(header.constants.is_empty());
    assert!(header.methods.is_empty());
    assert!(!header.pinned);
    assert!(header.truthy);
}

#[test]
fn set_falsy_changes_only_truthy() {
    let mut header = ObjectHeader::new();
    header.name = Some(String::from("thing"));
    header.pinned = true;
    header
        .attributes
        .push((String::from("size"), ObjectPointer::new(4)));
    header.set_falsy();
    assert!(!header.truthy);
    assert_eq!(header.name.as_deref(), Some("thing"));
    assert!(header.pinned);
    assert_eq!(header.attributes.len(), 1);
    assert_eq!(header.attributes[0].0, "size");
    assert_eq!(header.attributes[0].1.address, 4);
    assert!(header.constants.is_empty());
    assert!(header.methods.is_empty());
    // Idempotent.
    header.set_falsy();
    assert!(!header.truthy);
    assert!(header.pinned);
}

#[test]
fn work_list_is_append_pop_front() {
    let mut list = WorkList::new();
    assert_eq!(list.len(), 0);
    assert!(list.pop().is_none());
    list.push(ObjectPointer::new(1));
    list.push(ObjectPointer::new(2));
    list.push(ObjectPointer::new(3));
    assert_eq!(list.len(), 3);
    assert_eq!(list.pop().map(|p| p.address), Some(1));
    assert_eq!(list.pop().map(|p| p.address), Some(2));
    assert_eq!(list.pop().map(|p| p.address), Some(3));
    assert!(list.pop().is_none());
}

#[test]
fn diagnostics_records_in_order() {
    let mut diagnostics = Diagnostics::new();
    assert_eq!(diagnostics.len(), 0);
    diagnostics.error("a.inko", String::from("broken"), 3, 7);
    diagnostics.warn("b.inko", String::from("dusty"), 1, 2);
    assert_eq!(diagnostics.len(), 2);
    let entries = diagnostics.iter();
    assert_eq!(entries[0].level, DiagnosticLevel::Error);
    assert_eq!(entries[0].path, "a.inko");
    assert_eq!(entries[0].message, "broken");
    assert_eq!(entries[0].line, 3);
    assert_eq!(entries[0].col, 7);
    assert_eq!(entries[1].level, DiagnosticLevel::Warning);
    assert_eq!(entries[1].path, "b.inko");
}

#[test]
fn has_errors_ignores_warnings() {
    let mut diagnostics = Diagnostics::new();
    assert!(!diagnostics.has_errors());
    diagnostics.warn("a.inko", String::from("odd"), 1, 1);
    assert!(!diagnostics.has_errors());
    diagnostics.error("a.inko", String::from("bad"), 2, 2);
    assert!(diagnostics.has_errors());
}

#[test]
fn append_moves_entries_keeping_order() {
    let mut first = Diagnostics::new();
    first.warn("a.inko", String::from("one"), 1, 1);
    let mut second = Diagnostics::new();
    second.error("b.inko", String::from("two"), 2, 2);
    second.warn("c.inko", String::from("three"), 3, 3);
    first.append(second);
    assert_eq!(first.len(), 3);
    let entries = first.iter();
    assert_eq!(entries[0].message, "one");
    assert_eq!(entries[1].message, "two");
    assert_eq!(entries[2].message, "three");
    assert!(first.has_errors());
}
