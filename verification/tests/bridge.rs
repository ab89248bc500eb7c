use scraper_bridge::arena::Arena;
use scraper_bridge::selector::{strip_contains, ContainsKind};
use scraper_bridge::text::{html_escape, normalise_whitespace};

#[test]
fn attr_round_trip() {
    let mut a = Arena::new();
    let d = a.scraper_parse("<div id=\"x\">hi</div>", "");
    let n = a.scraper_select_first(d, "div");
    assert!(n >= 1);
    a.scraper_set_attr(n, "title", "Greeting");
    assert_eq!(a.scraper_attr(n, "title"), Some(String::from("Greeting")));
    a.scraper_remove_attr(n, "title");
    assert_eq!(a.scraper_attr(n, "title"), None);
    assert!(!a.scraper_has_attr(n, "title"));
}

#[test]
fn add_class_twice_is_once() {
    let mut a = Arena::new();
    let d = a.scraper_parse("<p class=\"one\">t</p>", "");
    let n = a.scraper_select_first(d, "p");
    a.scraper_add_class(n, "two");
    let after_once = a.scraper_class_name(n);
    a.scraper_add_class(n, "two");
    let after_twice = a.scraper_class_name(n);
    assert_eq!(after_once, Some(String::from("one two")));
    assert_eq!(after_once, after_twice);
    assert!(a.scraper_has_class(n, "two"));
}

#[test]
fn remove_absent_class_keeps_tokens() {
    let mut a = Arena::new();
    let d = a.scraper_parse("<p class=\"one two\">t</p>", "");
    let n = a.scraper_select_first(d, "p");
    a.scraper_remove_class(n, "three");
    assert_eq!(a.scraper_class_name(n), Some(String::from("one two")));
    a.scraper_remove_class(n, "one");
    assert_eq!(a.scraper_class_name(n), Some(String::from("two")));
    a.scraper_remove_class(n, "two");
    assert_eq!(a.scraper_class_name(n), Some(String::from("")));
    assert!(!a.scraper_has_attr(n, "class"));
}

#[test]
fn strip_contains_nested_text() {
    let (base, filters) = strip_contains(":containsOwn(:contains)");
    assert_eq!(base, "");
    assert_eq!(filters.len(), 1);
    assert!(matches!(filters[0].kind, ContainsKind::ContainsOwn));
    assert_eq!(filters[0].search_text, ":contains");
}

#[test]
fn strip_contains_longest_prefix_first() {
    let (base, filters) = strip_contains("div:containsWholeOwnText(a)");
    assert_eq!(base, "div");
    assert_eq!(filters.len(), 1);
    assert!(matches!(filters[0].kind, ContainsKind::WholeOwnText));
    assert_eq!(filters[0].search_text, "a");
}

#[test]
fn contains_filters_match_div() {
    let mut a = Arena::new();
    let d = a.scraper_parse("<div>Hello <b>World</b></div>", "");
    let hit = a.scraper_select(d, "div:contains(hello world)");
    assert!(hit >= 1);
    assert_eq!(a.scraper_list_size(hit), 1);
    let own_hit = a.scraper_select(d, "div:containsOwn(hello)");
    assert_eq!(a.scraper_list_size(own_hit), 1);
    let own_miss = a.scraper_select(d, "div:containsOwn(world)");
    assert_eq!(a.scraper_list_size(own_miss), 0);
}

#[test]
fn set_html_unwraps_fragment() {
    let mut a = Arena::new();
    let d = a.scraper_parse("<html><body><div id=\"t\"></div></body></html>", "");
    let body = a.scraper_select_first(d, "body");
    assert!(body >= 1);
    a.scraper_set_html(body, "<p>x</p>");
    let kids = a.scraper_children(body);
    assert_eq!(a.scraper_list_size(kids), 1);
    let p = a.scraper_list_first(kids);
    assert_eq!(a.scraper_tag_name(p), Some(String::from("p")));
    assert_eq!(a.scraper_text(p), Some(String::from("x")));
}

#[test]
fn freed_document_dangles_safely() {
    let mut a = Arena::new();
    let d1 = a.scraper_parse("<div>a</div>", "");
    let d2 = a.scraper_parse("<span>b</span>", "");
    let n1 = a.scraper_select_first(d1, "div");
    let n2 = a.scraper_select_first(d2, "span");
    a.scraper_free(d1);
    assert_eq!(a.scraper_text(n1), None);
    assert_eq!(a.scraper_attr(n1, "id"), None);
    assert_eq!(a.scraper_parent(n1), -1);
    a.scraper_set_attr(n1, "x", "y");
    assert_eq!(a.scraper_attr(n1, "x"), None);
    assert_eq!(a.scraper_tag_name(n2), Some(String::from("span")));
    a.scraper_free(n1);
    a.scraper_free(n1);
}

#[test]
fn abs_url_resolution_policy() {
    let mut a = Arena::new();
    let d = a.scraper_parse("<a href=\"y\">l</a>", "https://a.com/x/");
    let n = a.scraper_select_first(d, "a");
    assert_eq!(a.scraper_node_abs_url(n, "href"), "https://a.com/x/y");

    let d2 = a.scraper_parse("<a href=\"y\">l</a>", "");
    let n2 = a.scraper_select_first(d2, "a");
    assert_eq!(a.scraper_node_abs_url(n2, "href"), "");

    let d3 = a.scraper_parse("<a href=\"https://b.com/z\">l</a>", "");
    let n3 = a.scraper_select_first(d3, "a");
    assert_eq!(a.scraper_node_abs_url(n3, "href"), "https://b.com/z");
}

#[test]
fn base_uri_read_and_write() {
    let mut a = Arena::new();
    let d = a.scraper_parse("<p>t</p>", "https://h.example/");
    assert_eq!(a.scraper_node_base_uri(d), Some(String::from("https://h.example/")));
    let n = a.scraper_select_first(d, "p");
    assert_eq!(a.scraper_node_base_uri(n), Some(String::from("https://h.example/")));
    a.scraper_set_node_base_uri(n, "https://other.example/");
    assert_eq!(a.scraper_node_base_uri(d), Some(String::from("https://other.example/")));
}

#[test]
fn text_extraction_and_normalization() {
    let mut a = Arena::new();
    let d = a.scraper_parse("<div>  Hello \n <b>World</b>  </div>", "");
    let n = a.scraper_select_first(d, "div");
    assert_eq!(a.scraper_text(n), Some(String::from("Hello World")));
    assert_eq!(a.scraper_own_text(n), Some(String::from("Hello")));
    assert_eq!(normalise_whitespace("  a \t b\n"), "a b");
}

#[test]
fn escape_and_markup() {
    assert_eq!(html_escape("a<b>&c"), "a&lt;b&gt;&amp;c");
    let mut a = Arena::new();
    let d = a.scraper_parse("<div><p id=\"k\">x</p></div>", "");
    let n = a.scraper_select_first(d, "p");
    assert_eq!(a.scraper_inner_html(n), Some(String::from("x")));
    assert_eq!(a.scraper_outer_html(n), Some(String::from("<p id=\"k\">x</p>")));
}

#[test]
fn navigation_and_lists() {
    let mut a = Arena::new();
    let d = a.scraper_parse("<ul><li>1</li>mid<li>2</li><li>3</li></ul>", "");
    let ul = a.scraper_select_first(d, "ul");
    let kids = a.scraper_children(ul);
    assert_eq!(a.scraper_list_size(kids), 3);
    let first = a.scraper_list_first(kids);
    let second = a.scraper_next_sibling(first);
    assert_eq!(a.scraper_text(second), Some(String::from("2")));
    let back = a.scraper_prev_sibling(second);
    assert_eq!(a.scraper_text(back), Some(String::from("1")));
    let sibs = a.scraper_siblings(second);
    assert_eq!(a.scraper_list_size(sibs), 2);
    let parent = a.scraper_parent(first);
    assert_eq!(a.scraper_tag_name(parent), Some(String::from("ul")));
}

#[test]
fn raw_child_nodes_and_text_nodes() {
    let mut a = Arena::new();
    let d = a.scraper_parse("<p>one<b>two</b>three</p>", "");
    let p = a.scraper_select_first(d, "p");
    assert_eq!(a.scraper_child_node_size(p), 3);
    let handles = a.scraper_child_node_handles(p);
    assert_eq!(handles.len(), 3);
    assert!(a.scraper_is_text_node(handles[0]));
    assert_eq!(a.scraper_node_name(handles[1]), Some(String::from("b")));
    let texts = a.scraper_text_node_handles(p);
    assert_eq!(texts.len(), 2);
    assert_eq!(a.scraper_text_node_whole_text(texts[0]), Some(String::from("one")));
    assert!(!a.scraper_text_node_is_blank(texts[0]));
    a.scraper_set_text_node_text(texts[0], "  ");
    assert!(a.scraper_text_node_is_blank(texts[0]));
}

#[test]
fn set_text_prepend_append() {
    let mut a = Arena::new();
    let d = a.scraper_parse("<div><i>old</i></div>", "");
    let n = a.scraper_select_first(d, "div");
    a.scraper_set_text(n, "fresh");
    assert_eq!(a.scraper_text(n), Some(String::from("fresh")));
    a.scraper_append(n, "<b>tail</b>");
    a.scraper_prepend(n, "<b>head</b>");
    assert_eq!(a.scraper_text(n), Some(String::from("headfreshtail")));
}

#[test]
fn remove_detaches_subtree() {
    let mut a = Arena::new();
    let d = a.scraper_parse("<div><span>gone</span>kept</div>", "");
    let s = a.scraper_select_first(d, "span");
    a.scraper_remove_element(s);
    let div = a.scraper_select_first(d, "div");
    assert_eq!(a.scraper_text(div), Some(String::from("kept")));
}

#[test]
fn created_nodes_and_lists() {
    let mut a = Arena::new();
    let e = a.scraper_create_element("div");
    assert_eq!(a.scraper_tag_name(e), Some(String::from("div")));
    let t = a.scraper_create_text_node("hello");
    assert!(a.scraper_is_text_node(t));
    assert_eq!(a.scraper_text_node_whole_text(t), Some(String::from("hello")));
    let handles = vec![e, t, 9999];
    let list = a.scraper_create_elements(&handles);
    assert_eq!(a.scraper_list_size(list), 2);
}

#[test]
fn data_and_ids() {
    let mut a = Arena::new();
    let d = a.scraper_parse(
        "<html><head><script>var x = 1;</script></head><body><p id=\"pid\" class=\"c\">t</p></body></html>",
        "",
    );
    let sc = a.scraper_select_first(d, "script");
    assert_eq!(a.scraper_data(sc), Some(String::from("var x = 1;")));
    let p = a.scraper_select_first(d, "p");
    assert_eq!(a.scraper_id(p), Some(String::from("pid")));
    assert_eq!(a.scraper_data(p), Some(String::from("")));
}

#[test]
fn release_all_clears_everything() {
    let mut a = Arena::new();
    let d = a.scraper_parse("<p>x</p>", "");
    let n = a.scraper_select_first(d, "p");
    a.scraper_release_all();
    assert!(!a.is_document(d));
    assert_eq!(a.scraper_text(n), None);
    assert_eq!(a.scraper_select(d, "p"), -1);
}

#[test]
fn node_outer_html_serializes_every_kind() {
    let mut a = Arena::new();
    let d = a.scraper_parse("<p>a &amp; b<b>c</b></p>", "");
    let p = a.scraper_select_first(d, "p");
    assert_eq!(
        a.scraper_node_outer_html(p),
        Some(String::from("<p>a &amp; b<b>c</b></p>"))
    );
    let texts = a.scraper_text_node_handles(p);
    assert_eq!(a.scraper_node_outer_html(texts[0]), Some(String::from("a &amp; b")));
}

#[test]
fn whole_text_filter_is_case_sensitive() {
    let mut a = Arena::new();
    let d = a.scraper_parse("<div>Case Matters</div>", "");
    let hit = a.scraper_select(d, "div:containsWholeText(Case M)");
    assert_eq!(a.scraper_list_size(hit), 1);
    let miss = a.scraper_select(d, "div:containsWholeText(case m)");
    assert_eq!(a.scraper_list_size(miss), 0);
}
