use raui_core::html::{HtmlNode, HtmlRenderer};

#[test]
fn html_document() {
    let renderer = HtmlRenderer {
        indent: 2,
        title: Some("T".to_owned()),
    };
    let tree = HtmlNode::Container(vec![
        HtmlNode::Text("hi".to_owned()),
        HtmlNode::Image,
        HtmlNode::Empty,
    ]);
    let lines = [
        "<!DOCTYPE html>",
        "<html  lang=\"en\" dir=\"ltr\">",
        "  <head  >",
        "    <meta charset=\"utf-8\">",
        "    <title>T</title>",
        "  </head>",
        "  <body  >",
        "    <div  >",
        "      <span  >",
        "        hi",
        "      </span>",
        "      <div  >",
        "      </div>",
        "    </div>",
        "  </body>",
        "</html>",
    ];
    let expected: String = lines.iter().map(|l| format!("{l}\n")).collect();
    assert_eq!(renderer.render(&tree), expected);
}

#[test]
fn html_document_without_title() {
    let renderer = HtmlRenderer::default();
    assert_eq!(renderer.indent, 2);
    let out = renderer.render(&HtmlNode::Empty);
    assert_eq!(
        out,
        "<!DOCTYPE html>\n<html  lang=\"en\" dir=\"ltr\">\n  <head  >\n    <meta charset=\"utf-8\">\n  </head>\n  <body  >\n  </body>\n</html>\n"
    );
}

#[test]
fn html_lines_and_tags() {
    let renderer = HtmlRenderer {
        indent: 3,
        title: None,
    };
    let mut out = String::new();
    renderer.write_line("x", &mut out, 2);
    assert_eq!(out, "      x\n");
    let styles = vec![
        ("color".to_owned(), "red".to_owned()),
        ("x".to_owned(), "y".to_owned()),
    ];
    let attribs = vec![
        ("a".to_owned(), "1".to_owned()),
        ("b".to_owned(), "2".to_owned()),
    ];
    assert_eq!(
        HtmlRenderer::stringify_styles_attr(&styles),
        "style=\"color: red;x: y;\""
    );
    assert_eq!(HtmlRenderer::stringify_styles_attr(&[]), "");
    assert_eq!(HtmlRenderer::stringify_attribs(&attribs), "a=\"1\" b=\"2\"");
    assert_eq!(HtmlRenderer::stringify_attribs(&[]), "");
    let mut out = String::new();
    renderer.inline_node("img", &styles[..1], &attribs[..1], &mut out, 1);
    renderer.start_node("p", &[], &[], &mut out, 0);
    renderer.stop_node("p", &mut out, 0);
    assert_eq!(
        out,
        "   <img style=\"color: red;\" a=\"1\"/>\n<p  >\n</p>\n"
    );
}
