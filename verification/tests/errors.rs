use debris::Document;
use debris::Operation;
use debris::Reason;

const PAGE: &str = "<div class=\"row\"><a class=\"link\" href=\"u\">one</a></div>";

#[test]
fn error_carries_the_whole_derivation_chain() {
    let mut doc = Document::new(PAGE);
    let row = doc.find_first(".row").unwrap();
    let link = row.find(&mut doc, "a.link").unwrap();
    let e = link.attr(&doc, "missing").unwrap_err();
    // Two chained operations led here; the failing one is appended last.
    assert_eq!(e.operations.len(), 3);
    assert!(matches!(e.operations[0], Operation::FindFirst { .. }));
    assert!(matches!(e.operations[1], Operation::Find { .. }));
    assert!(matches!(e.operations[2], Operation::Attr { .. }));
    // One snapshot per chain level, the document root's first.
    assert_eq!(e.snapshots.len(), 3);
    assert!(e.snapshots[0].starts_with("<html>"));
    assert!(e.snapshots[1].starts_with("<div"));
    assert!(e.snapshots[2].starts_with("<a"));
}

#[test]
fn chain_length_grows_with_each_operation() {
    let mut doc = Document::new(
        "<div class=\"row\"><ul><li><a class=\"link\" href=\"u\">one</a></li></ul></div>",
    );
    let row = doc.find_first(".row").unwrap();
    let ul = row.find(&mut doc, "ul").unwrap();
    let li = ul.child(&mut doc, 0).unwrap();
    let a = li.find_first(&mut doc, "a.link").unwrap();
    let e = a.attr(&doc, "missing").unwrap_err();
    // Four chained operations plus the failing one.
    assert_eq!(e.operations.len(), 5);
    assert_eq!(e.snapshots.len(), 5);
}

#[test]
fn document_level_error_has_one_operation() {
    let mut doc = Document::new(PAGE);
    let e = doc.find(".nope").unwrap_err();
    assert_eq!(e.operations.len(), 1);
    assert!(matches!(e.operations[0], Operation::Find { .. }));
    assert_eq!(e.snapshots.len(), 1);
}

#[test]
fn message_renders_reason_then_chain_reversed() {
    let mut doc = Document::new(PAGE);
    let row = doc.find_first(".row").unwrap();
    let e = row.find_nth(&mut doc, "a.link", 2).unwrap_err();
    assert_eq!(e.message(), "not found 2nd 'a.link' first '.row'");
}

#[test]
fn message_for_simple_not_found() {
    let mut doc = Document::new(PAGE);
    let e = doc.find(".nope").unwrap_err();
    assert_eq!(e.message(), "not found '.nope'");
}

#[test]
fn message_for_multiple_found() {
    let mut doc = Document::new("<i class=\"t\">a</i><i class=\"t\">b</i>");
    let e = doc.find(".t").unwrap_err();
    assert_eq!(e.message(), "found too many '.t'");
}

#[test]
fn parse_failure_wraps_the_foreign_error() {
    let mut doc = Document::new("<p>abc</p>");
    let p = doc.find("p").unwrap();
    let t = p.text(&doc);
    let e = t.parse::<i64>(&doc).unwrap_err();
    assert!(matches!(e.reason, Reason::External(_)));
    assert!(matches!(e.operations.last(), Some(Operation::Parse)));
    // The text's own operation sits just before the failing one.
    let k = e.operations.len();
    assert!(matches!(e.operations[k - 2], Operation::Text));
}

#[test]
fn parse_succeeds_on_trimmed_digits() {
    let mut doc = Document::new("<p> 42 </p>");
    let p = doc.find("p").unwrap();
    let t = p.text(&doc);
    assert_eq!(t.as_str(), "42");
    assert_eq!(t.parse::<i64>(&doc).unwrap(), 42i64);
    assert_eq!(t.parse::<u64>(&doc).unwrap(), 42u64);
    assert_eq!(t.parse::<usize>(&doc).unwrap(), 42usize);
}

#[test]
fn map_threads_the_conversion_result() {
    let mut doc = Document::new("<p>42</p>");
    let p = doc.find("p").unwrap();
    let t = p.text(&doc);
    let v = t.map(&doc, |s| if s == "42" { Ok(7i32) } else { Err("bad".to_string()) });
    assert_eq!(v.unwrap(), 7);
    let e = t.map::<i32, _>(&doc, |_s| Err("bad".to_string())).unwrap_err();
    assert!(matches!(e.reason, Reason::External(ref m) if m == "bad"));
    assert!(matches!(e.operations.last(), Some(Operation::External)));
}

#[test]
fn raised_errors_carry_the_chain_and_message() {
    let mut doc = Document::new(PAGE);
    let row = doc.find_first(".row").unwrap();
    let e = row.error(&doc, "odd row".to_string());
    assert!(matches!(e.reason, Reason::Logic(ref m) if m == "odd row"));
    assert_eq!(e.operations.len(), 2);
    assert!(matches!(e.operations[1], Operation::External));
    let e2 = doc.error("top".to_string());
    assert_eq!(e2.operations.len(), 1);
    let t = row.text(&doc);
    let e3 = t.error(&doc, "bad text".to_string());
    assert_eq!(e3.operations.len(), 3);
    assert!(matches!(e3.operations[1], Operation::Text));
}

#[test]
fn collection_nodes_record_selector_and_position() {
    let mut doc = Document::new("<i class=\"t\">a</i><i class=\"t\">b</i>");
    let mut c = doc.find_all(".t");
    let first = c.next(&mut doc).unwrap();
    let second = c.next(&mut doc).unwrap();
    assert!(c.next(&mut doc).is_none());
    let e1 = first.attr(&doc, "x").unwrap_err();
    match &e1.operations[0] {
        Operation::FindAll { selector, index } => {
            assert_eq!(selector, ".t");
            assert_eq!(*index, 0);
        },
        other => panic!("unexpected operation {:?}", other),
    }
    let e2 = second.attr(&doc, "x").unwrap_err();
    match &e2.operations[0] {
        Operation::FindAll { selector, index } => {
            assert_eq!(selector, ".t");
            assert_eq!(*index, 1);
        },
        other => panic!("unexpected operation {:?}", other),
    }
}

#[test]
fn expected_element_error_names_the_child_operation() {
    let mut doc = Document::new("<ul>lead<li>x</li></ul>");
    let ul = doc.find("ul").unwrap();
    let e = ul.child(&mut doc, 0).unwrap_err();
    assert!(matches!(e.reason, Reason::ExpectedElement));
    assert!(matches!(e.operations.last(), Some(Operation::Child { index: 0 })));
    assert_eq!(e.message(), "expected element 0th child 'ul'");
}
