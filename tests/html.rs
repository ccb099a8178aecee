use std::collections::HashMap;

use ludtwig::html::{
    argument_value, html_complete_tag, html_open_tag, html_tag_argument, html_tag_argument_map, parse, HtmlNode,
};
use ludtwig::error::TwigParseError;
use ludtwig::position::TextRange;

fn text<'a>(input: &'a str, r: &TextRange) -> &'a str {
    &input[r.start..r.end]
}

fn arg_map<'a>(input: &'a str, args: &[(TextRange, TextRange)]) -> HashMap<&'a str, &'a str> {
    let mut map = HashMap::new();
    for (k, v) in args {
        map.insert(text(input, k), text(input, v));
    }
    map
}

/// A tag or a run of text, with the texts its ranges point at.
#[derive(Debug, PartialEq)]
enum Shape<'a> {
    Tag(&'a str, bool, HashMap<&'a str, &'a str>, Vec<Shape<'a>>),
    Plain(&'a str),
}

fn shape<'a>(input: &'a str, node: &HtmlNode) -> Shape<'a> {
    match node {
        HtmlNode::Tag(t) => Shape::Tag(
            text(input, &t.name),
            t.self_closed,
            arg_map(input, &t.arguments),
            t.children.iter().map(|c| shape(input, c)).collect(),
        ),
        HtmlNode::Plain(p) => Shape::Plain(text(input, &p.plain)),
    }
}

fn open_tag(input: &str) -> Result<(&str, (&str, bool, HashMap<&str, &str>)), TwigParseError> {
    html_open_tag(input.as_bytes(), 0)
        .map(|(end, (name, closed, args))| (&input[end..], (text(input, &name), closed, arg_map(input, &args))))
}

fn complete_tag(input: &str) -> Result<(&str, Shape<'_>), TwigParseError> {
    html_complete_tag(input.as_bytes(), 0).map(|(end, node)| (&input[end..], shape(input, &node)))
}

fn tag_argument(input: &str) -> Result<(&str, (&str, &str)), TwigParseError> {
    html_tag_argument(input.as_bytes(), 0).map(|(end, (k, v))| (&input[end..], (text(input, &k), text(input, &v))))
}

fn tag_argument_map(input: &str) -> Result<(&str, HashMap<&str, &str>), TwigParseError> {
    html_tag_argument_map(input.as_bytes(), 0).map(|(end, args)| (&input[end..], arg_map(input, &args)))
}

#[test]
fn test_open_tag_positive() {
    assert_eq!(
        open_tag("<a href=\"#\">"),
        Ok(("", ("a", false, vec![("href", "#")].into_iter().collect())))
    );
    assert_eq!(open_tag("<p>"), Ok(("", ("p", false, HashMap::new()))));
    assert_eq!(open_tag("<h1>"), Ok(("", ("h1", false, HashMap::new()))));
    assert_eq!(open_tag("<h1>"), Ok(("", ("h1", false, HashMap::new()))));
    assert_eq!(
        open_tag("<!DOCTYPE html>"),
        Ok(("", ("!DOCTYPE", true, vec![("html", "")].into_iter().collect())))
    );
}

#[test]
fn test_open_tag_negative() {
    assert!(open_tag("<a href=\"#\" <p></p>").is_err());
    assert!(open_tag("</p>").is_err());
}

#[test]
fn test_open_self_closing_tag() {
    assert_eq!(open_tag("<br/>"), Ok(("", ("br", true, HashMap::new()))));
    assert_eq!(
        open_tag("<a href=\"#\"/>"),
        Ok(("", ("a", true, vec![("href", "#")].into_iter().collect())))
    )
}

#[test]
fn test_open_non_closing_tag() {
    assert_eq!(
        open_tag("<meta charset=\"UTF-8\"><title>SomeTitle</title>"),
        Ok((
            "<title>SomeTitle</title>",
            ("meta", true, vec![("charset", "UTF-8")].into_iter().collect())
        ))
    );
}

#[test]
fn test_complete_tag() {
    assert_eq!(
        complete_tag("<meta charset=\"UTF-8\"><title>SomeTitle</title>"),
        Ok((
            "<title>SomeTitle</title>",
            Shape::Tag("meta", true, vec![("charset", "UTF-8")].into_iter().collect(), vec![])
        ))
    );

    assert_eq!(
        complete_tag("<div><meta charset=\"UTF-8\"><title></title></div>"),
        Ok((
            "",
            Shape::Tag(
                "div",
                false,
                HashMap::new(),
                vec![
                    Shape::Tag("meta", true, vec![("charset", "UTF-8")].into_iter().collect(), vec![]),
                    Shape::Tag("title", false, HashMap::new(), vec![])
                ]
            )
        ))
    );
}

#[test]
fn test_tag_argument() {
    assert_eq!(tag_argument("href=\"#\""), Ok(("", ("href", "#"))));
    assert_eq!(
        tag_argument("onClick=\"alert('Hello world');\" "),
        Ok(("", ("onClick", "alert('Hello world');")))
    );
    assert_eq!(tag_argument("disabled"), Ok(("", ("disabled", ""))));
}

#[test]
fn test_tag_argument_map() {
    let mut map = HashMap::new();
    map.insert("href", "#");
    map.insert("target", "_blank");

    assert_eq!(
        tag_argument_map("href=\"#\" \n\t         target=\"_blank\"   "),
        Ok(("", map))
    );
}

#[test]
fn duplicate_attribute_last_one_wins() {
    let input = "a=\"1\" b a=\"2\"";
    let (rest, map) = tag_argument_map(input).unwrap();
    assert_eq!(rest, "");
    assert_eq!(map.get("a"), Some(&"2"));
    assert_eq!(map.get("b"), Some(&""));
    assert_eq!(map.len(), 2);
}

#[test]
fn plain_text_inside_tag_keeps_its_text() {
    assert_eq!(
        complete_tag("<title>SomeTitle</title>"),
        Ok(("", Shape::Tag("title", false, HashMap::new(), vec![Shape::Plain("SomeTitle")])))
    );
}

#[test]
fn unclosed_tag_is_a_failure_with_a_message() {
    match html_complete_tag("<a href=\"#\">".as_bytes(), 0) {
        Err(TwigParseError::ParsingFailure(info)) => {
            let message = info.context.unwrap();
            assert_eq!(message, "Missing closing tag for opening tag 'a' with arguments 'href=\"#\"'");
        }
        other => panic!("expected a failure, got {:?}", other),
    }
}

#[test]
fn wrong_closing_tag_is_a_failure() {
    assert!(matches!(
        html_complete_tag("<div></span>".as_bytes(), 0),
        Err(TwigParseError::ParsingFailure(_))
    ));
}

#[test]
fn open_tag_error_carries_context() {
    match html_complete_tag("plain".as_bytes(), 0) {
        Err(TwigParseError::ParsingError(info)) => {
            assert_eq!(info.context.as_deref(), Some("open tag expected"))
        }
        other => panic!("expected an error, got {:?}", other),
    }
}

fn assert_covers(input: &str, nodes: &[HtmlNode]) {
    let mut pos = 0;
    for n in nodes {
        let r = match n {
            HtmlNode::Tag(t) => t.range,
            HtmlNode::Plain(p) => p.range,
        };
        assert_eq!(r.start, pos);
        assert!(r.end > r.start);
        pos = r.end;
    }
    assert_eq!(pos, input.len());
}

#[test]
fn parse_scenario_div_meta_title() {
    let input = "<div><meta charset=\"UTF-8\"><title></title></div>";
    let (nodes, errors) = parse(input.as_bytes());
    assert!(errors.is_empty());
    assert_eq!(nodes.len(), 1);
    assert_covers(input, &nodes);
    assert_eq!(
        shape(input, &nodes[0]),
        Shape::Tag(
            "div",
            false,
            HashMap::new(),
            vec![
                Shape::Tag("meta", true, vec![("charset", "UTF-8")].into_iter().collect(), vec![]),
                Shape::Tag("title", false, HashMap::new(), vec![])
            ]
        )
    );
    if let HtmlNode::Tag(t) = &nodes[0] {
        assert_eq!(t.children_range, TextRange { start: 5, end: 42 });
    }
}

#[test]
fn parse_scenario_unclosed_anchor() {
    let input = "<a href=\"#\">";
    let (nodes, errors) = parse(input.as_bytes());
    assert_eq!(errors.len(), 1);
    assert!(matches!(errors[0], TwigParseError::ParsingFailure(_)));
    assert_covers(input, &nodes);
    let (rest, tag) = open_tag(input).unwrap();
    assert_eq!(rest, "");
    assert_eq!(tag, ("a", false, vec![("href", "#")].into_iter().collect()));
}

#[test]
fn parse_is_total() {
    for input in ["", "   ", "{", "<", "</>", "<<<>>>", "text {{ x }} <b>", "a\r\n<p>x</p>\t<", "<p>\u{0}\u{7f}é</p>"] {
        let (nodes, _) = parse(input.as_bytes());
        assert_covers(input, &nodes);
    }
}

#[test]
fn token_ranges_slice_back_to_their_text() {
    let input = "  <section id=\"main\">\n  Hello world\n</section>  ";
    let (nodes, errors) = parse(input.as_bytes());
    assert!(errors.is_empty());
    assert_covers(input, &nodes);
    match &nodes[0] {
        HtmlNode::Tag(t) => {
            assert_eq!(text(input, &t.name), "section");
            assert_eq!(arg_map(input, &t.arguments).get("id"), Some(&"main"));
            match &t.children[0] {
                HtmlNode::Plain(p) => assert_eq!(text(input, &p.plain), "Hello world"),
                other => panic!("expected text, got {:?}", other),
            }
            assert_eq!(t.range, TextRange { start: 0, end: input.len() });
        }
        other => panic!("expected a tag, got {:?}", other),
    }
}

#[test]
fn argument_lookup_takes_last_value() {
    let input = "a=\"1\" b a=\"2\"";
    let (_, args) = html_tag_argument_map(input.as_bytes(), 0).unwrap();
    assert_eq!(args.len(), 3);
    let lookup = |key: &str| argument_value(input.as_bytes(), &args, key.as_bytes()).map(|r| text(input, &r));
    assert_eq!(lookup("a"), Some("2"));
    assert_eq!(lookup("b"), Some(""));
    assert_eq!(lookup("c"), None);
}

#[test]
fn parse_records_one_error_per_unmatched_place() {
    let input = "<p>ok</p>{x<b>";
    let (nodes, errors) = parse(input.as_bytes());
    assert_covers(input, &nodes);
    assert_eq!(errors.len(), 2);
    assert_eq!(nodes.len(), 3);
    for e in &errors {
        match e {
            TwigParseError::ParsingError(i) | TwigParseError::ParsingFailure(i) => assert!(i.input <= input.len()),
            TwigParseError::MissingClosing => panic!("not produced by the parser"),
        }
    }
}
