use debris::Document;

const LIST: &str = "<ul><li class=\"x\">5</li><li class=\"x\">6</li></ul>";

#[test]
fn find_single_match_returns_it() {
    let mut doc = Document::new("<p class=\"a\">hi</p>");
    let n = doc.find(".a").unwrap();
    assert_eq!(n.text(&doc).as_str(), "hi");
}

#[test]
fn find_zero_matches_is_not_found() {
    let mut doc = Document::new("<p class=\"a\">hi</p>");
    let e = doc.find(".b").unwrap_err();
    assert!(matches!(e.reason, debris::Reason::NotFound));
}

#[test]
fn find_two_matches_is_multiple_found() {
    let mut doc = Document::new(LIST);
    let e = doc.find(".x").unwrap_err();
    assert!(matches!(e.reason, debris::Reason::MultipleFound));
}

#[test]
fn find_all_yields_each_match_in_order() {
    let mut doc = Document::new(LIST);
    let mut c = doc.find_all(".x");
    assert_eq!(c.remaining(), 2);
    let mut texts: Vec<String> = Vec::new();
    while let Some(n) = c.next(&mut doc) {
        texts.push(n.text(&doc).string());
    }
    assert_eq!(texts, vec!["5".to_string(), "6".to_string()]);
}

#[test]
fn find_all_twice_yields_equal_results() {
    let mut doc = Document::new(LIST);
    let mut first: Vec<String> = Vec::new();
    let mut c = doc.find_all(".x");
    while let Some(n) = c.next(&mut doc) {
        first.push(n.text(&doc).string());
    }
    let mut second: Vec<String> = Vec::new();
    let mut c2 = doc.find_all(".x");
    while let Some(n) = c2.next(&mut doc) {
        second.push(n.text(&doc).string());
    }
    assert_eq!(first, second);
}

#[test]
fn find_nth_takes_the_indexed_match() {
    let mut doc = Document::new(LIST);
    let n = doc.find_nth(".x", 1).unwrap();
    assert_eq!(n.text(&doc).as_str(), "6");
    let e = doc.find_nth(".x", 2).unwrap_err();
    assert!(matches!(e.reason, debris::Reason::NotFound));
}

#[test]
fn find_first_takes_the_first_match() {
    let mut doc = Document::new(LIST);
    let n = doc.find_first(".x").unwrap();
    assert_eq!(n.text(&doc).as_str(), "5");
}

#[test]
fn child_out_of_range_is_not_found() {
    let mut doc = Document::new(LIST);
    let ul = doc.find("ul").unwrap();
    let e = ul.child(&mut doc, 5).unwrap_err();
    assert!(matches!(e.reason, debris::Reason::NotFound));
}

#[test]
fn child_steps_to_each_element() {
    let mut doc = Document::new(LIST);
    let ul = doc.find("ul").unwrap();
    let li1 = ul.child(&mut doc, 1).unwrap();
    assert_eq!(li1.text(&doc).as_str(), "6");
}

#[test]
fn child_on_text_node_is_expected_element() {
    let mut doc = Document::new("<ul>lead<li>x</li></ul>");
    let ul = doc.find("ul").unwrap();
    let e = ul.child(&mut doc, 0).unwrap_err();
    assert!(matches!(e.reason, debris::Reason::ExpectedElement));
}

#[test]
fn text_child_reads_a_text_node() {
    let mut doc = Document::new("<ul>  lead  <li>x</li></ul>");
    let ul = doc.find("ul").unwrap();
    let t = ul.text_child(&doc, 0).unwrap();
    assert_eq!(t.as_str(), "lead");
    let e = ul.text_child(&doc, 1).unwrap_err();
    assert!(matches!(e.reason, debris::Reason::ExpectedText));
    let e2 = ul.text_child(&doc, 7).unwrap_err();
    assert!(matches!(e2.reason, debris::Reason::NotFound));
    assert!(matches!(e2.operations.last(), Some(debris::Operation::ChildText { index: 7 })));
}

#[test]
fn parent_climbs_one_level_and_fails_at_root() {
    let mut doc = Document::new(LIST);
    let li = doc.find_first(".x").unwrap();
    let ul = li.parent(&mut doc).unwrap();
    let body = ul.parent(&mut doc).unwrap();
    let html = body.parent(&mut doc).unwrap();
    let e = html.parent(&mut doc).unwrap_err();
    assert!(matches!(e.reason, debris::Reason::NotFound));
}

#[test]
fn nested_find_searches_the_subtree_only() {
    let mut doc = Document::new(
        "<div id=\"a\"><span class=\"k\">in</span></div><div id=\"b\"><span>out</span></div>",
    );
    let a = doc.find("#a").unwrap();
    let s = a.find(&mut doc, "span").unwrap();
    assert_eq!(s.text(&doc).as_str(), "in");
    let b = doc.find("#b").unwrap();
    let e = b.find(&mut doc, ".k").unwrap_err();
    assert!(matches!(e.reason, debris::Reason::NotFound));
}

#[test]
fn text_concatenates_and_trims() {
    let mut doc = Document::new("<p>  hi <b>bold</b> there \n</p>");
    let p = doc.find("p").unwrap();
    assert_eq!(p.text(&doc).as_str(), "hi bold there");
}

#[test]
fn text_round_trip_on_text_only_element() {
    let mut doc = Document::new("<p> 42 </p>");
    let p = doc.find("p").unwrap();
    assert_eq!(p.text(&doc).as_str(), "42");
}

#[test]
fn text_multiline_renders_br_as_newline() {
    let mut doc = Document::new("<p>a<br>b<i>c</i></p>");
    let p = doc.find("p").unwrap();
    assert_eq!(p.text_multiline(&doc).as_str(), "a\nbc");
    assert_eq!(p.text(&doc).as_str(), "abc");
}

#[test]
fn attr_reads_present_and_misses_absent() {
    let mut doc = Document::new("<li class=\"x\">5</li>");
    let li = doc.find("li").unwrap();
    let t = li.attr(&doc, "class").unwrap();
    assert_eq!(t.as_str(), "x");
    let e = li.attr(&doc, "id").unwrap_err();
    assert!(matches!(e.reason, debris::Reason::NotFound));
}

#[test]
fn attr_value_is_not_trimmed() {
    let mut doc = Document::new("<li data-k=\" raw \">5</li>");
    let li = doc.find("li").unwrap();
    let t = li.attr(&doc, "data-k").unwrap();
    assert_eq!(t.as_str(), " raw ");
}

#[test]
fn checked_queries_reject_bad_selectors() {
    let mut doc = Document::new(LIST);
    assert!(doc.find_checked("[[").is_none());
    assert!(doc.find_all_checked("[[").is_none());
    let got = doc.find_first_checked(".x").unwrap().unwrap();
    assert_eq!(got.text(&doc).as_str(), "5");
    let ul = doc.find("ul").unwrap();
    assert!(ul.find_checked(&mut doc, "[[").is_none());
    assert!(ul.find_first_checked(&mut doc, "[[").is_none());
    assert!(ul.find_nth_checked(&mut doc, "[[", 0).is_none());
    assert!(ul.find_all_checked(&mut doc, "[[").is_none());
    let li = ul.find_nth_checked(&mut doc, "li", 1).unwrap().unwrap();
    assert_eq!(li.text(&doc).as_str(), "6");
}

#[test]
fn document_html_renders_the_tree() {
    let doc = Document::new("<p>hi</p>");
    assert_eq!(doc.html(), "<html><head></head><body><p>hi</p></body></html>");
}

#[test]
fn node_html_renders_the_subtree() {
    let mut doc = Document::new("<ul><li class=\"x\">5</li></ul>");
    let li = doc.find(".x").unwrap();
    assert_eq!(li.html(&doc), "<li class=\"x\">5</li>");
}

#[test]
fn html_escapes_text_and_keeps_void_elements_bare() {
    let mut doc = Document::new("<p>a &lt; b<br>&amp; more</p>");
    let p = doc.find("p").unwrap();
    assert_eq!(p.html(&doc), "<p>a &lt; b<br>&amp; more</p>");
}

#[test]
fn html_escapes_attribute_values() {
    let mut doc = Document::new("<li data-k='x\"y&amp;z'>5</li>");
    let li = doc.find("li").unwrap();
    assert_eq!(li.html(&doc), "<li data-k=\"x&quot;y&amp;z\">5</li>");
    assert_eq!(li.attr(&doc, "data-k").unwrap().as_str(), "x\"y&z");
}

#[test]
fn text_trims_unicode_whitespace() {
    let mut doc = Document::new("<p>\u{00A0} hi\u{2003}</p>");
    let p = doc.find("p").unwrap();
    assert_eq!(p.text(&doc).as_str(), "hi");
}
