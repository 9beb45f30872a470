use stylepack::expand::compile_source;
use stylepack::minify::minify_css;
use stylepack::selector::{expand_parent, merge_selectors};
use stylepack::value::Vars;

#[test]
fn resolve_missing_variable_stays_literal() {
    let vars = Vars::new();
    assert_eq!(vars.resolve_value("color: $missing;"), "color: $missing;");
}

#[test]
fn resolve_defined_variable() {
    let mut vars = Vars::new();
    vars.set("c", "red");
    assert_eq!(vars.resolve_value("color: $c;"), "color: red;");
}

#[test]
fn resolve_is_single_pass() {
    let mut vars = Vars::new();
    vars.set("a", "$b");
    vars.set("b", "x");
    assert_eq!(vars.resolve_value("$a"), "$b");
}

#[test]
fn vars_last_write_wins() {
    let mut vars = Vars::new();
    vars.set("x", "a");
    vars.set("x", "b");
    assert_eq!(vars.get("x"), Some(&"b".to_string()));
    assert_eq!(vars.get("y"), None);
}

#[test]
fn merge_flattening_parent_ref() {
    let parents = vec!["a".to_string()];
    let children = vec!["b".to_string(), "&:hover".to_string()];
    let merged = merge_selectors(&parents, &children);
    assert_eq!(merged, vec!["a b".to_string(), "a:hover".to_string()]);
}

#[test]
fn merge_without_parents_keeps_children() {
    let parents: Vec<String> = vec![];
    let children = vec!["b".to_string(), "c".to_string()];
    assert_eq!(merge_selectors(&parents, &children), children);
}

#[test]
fn expand_parent_replaces_every_token() {
    assert_eq!(expand_parent("a", "&.x &"), "a.x a");
    assert_eq!(expand_parent("a", "b"), "a b");
}

#[test]
fn minify_exact_value() {
    assert_eq!(minify_css("a { color : red ; }"), "a{color :red ;}");
}

#[test]
fn minify_collapses_whitespace_runs() {
    assert_eq!(minify_css("a   b\t\nc"), "a b c");
}

#[test]
fn minify_idempotent_samples() {
    let samples = [
        "a { color : red ; }",
        ":root {\n  color: red;\n}\n\n",
        "a, b { x: y; }\n@media (x) { }",
        "   ",
        "",
        "} ; { , :  ",
    ];
    for s in samples {
        let once = minify_css(s);
        let twice = minify_css(&once);
        assert_eq!(twice, once);
    }
}

#[test]
fn compile_top_level_declarations_under_root() {
    let css = compile_source("$c: red; color: $c;").unwrap();
    assert_eq!(css, ":root {\n  color: red;\n}\n\n");
}

#[test]
fn compile_nested_rule() {
    let css = compile_source("a { color: red; b { x: y; } }").unwrap();
    assert_eq!(css, "a {\n  color: red;\n}\n\na b {\n  x: y;\n}\n\n");
}

#[test]
fn compile_parent_reference() {
    let css = compile_source("a { &:hover { x: y; } }").unwrap();
    assert_eq!(css, "a:hover {\n  x: y;\n}\n\n");
}

#[test]
fn compile_selector_list_commas() {
    let css = compile_source("a, b:not(x, y) { p: q; }").unwrap();
    assert_eq!(css, "a, b:not(x, y) {\n  p: q;\n}\n\n");
}

#[test]
fn compile_raw_at_rule_verbatim_in_place() {
    let src = "a { color: red; } @media (max-width: 100px) { b { c: d; } } e { f: g; }";
    let css = compile_source(src).unwrap();
    assert_eq!(
        css,
        "a {\n  color: red;\n}\n\n@media (max-width: 100px) { b { c: d; } }\n\ne {\n  f: g;\n}\n\n"
    );
}

#[test]
fn compile_variables_are_globally_scoped() {
    let css = compile_source("$c: red; a { $c: blue; } b { x: $c; }").unwrap();
    assert_eq!(css, "b {\n  x: blue;\n}\n\n");
}

#[test]
fn compile_unterminated_block_is_syntax_error() {
    let err = compile_source("a {").unwrap_err();
    assert!(matches!(err, stylepack::error::Error::Syntax { .. }));
}

#[test]
fn compile_unterminated_declaration_is_syntax_error() {
    let err = compile_source("color: red").unwrap_err();
    assert!(matches!(err, stylepack::error::Error::Syntax { .. }));
}

#[test]
fn compile_deep_nesting_fails_with_depth_error() {
    let mut src = String::new();
    for _ in 0..70 {
        src.push_str("a{");
    }
    for _ in 0..70 {
        src.push('}');
    }
    let err = compile_source(&src).unwrap_err();
    assert!(matches!(err, stylepack::error::Error::DepthExceeded));
}

#[test]
fn compile_tolerates_comments() {
    let css = compile_source("/* note */ a { // line\n x: y; }").unwrap();
    assert_eq!(css, "a {\n  x: y;\n}\n\n");
}

#[test]
fn compile_statement_at_rule_passes_through() {
    let css = compile_source("@charset \"utf-8\"; a { x: y; }").unwrap();
    assert_eq!(css, "@charset \"utf-8\";\n\na {\n  x: y;\n}\n\n");
}

#[test]
fn error_messages_name_each_kind() {
    assert_eq!(stylepack::error::Error::Io { path: "p".to_string() }.message(), "unreadable file");
    assert_eq!(
        stylepack::error::Error::ImportNotFound { path: "p".to_string() }.message(),
        "cannot resolve import"
    );
    assert_eq!(
        stylepack::error::Error::MalformedImport { offset: 3 }.message(),
        "malformed import statement"
    );
    assert_eq!(stylepack::error::Error::Syntax { offset: 1 }.message(), "syntax error");
    assert_eq!(stylepack::error::Error::DepthExceeded.message(), "nesting too deep");
}

#[test]
fn compile_empty_source_is_empty() {
    assert_eq!(compile_source("").unwrap(), "");
}

#[test]
fn compile_is_deterministic_in_the_text() {
    let src = "$c: red; a { color: $c; }";
    assert_eq!(compile_source(src).unwrap(), compile_source(src).unwrap());
}

#[test]
fn raw_at_rule_flushes_pending_declarations_first() {
    let css = compile_source("color: red; @x; size: big;").unwrap();
    assert_eq!(
        css,
        ":root {\n  color: red;\n}\n\n@x;\n\n:root {\n  size: big;\n}\n\n"
    );
}

#[test]
fn minify_collapses_unicode_whitespace() {
    assert_eq!(minify_css("a\u{a0}\u{2003}b"), "a b");
}

#[test]
fn terminator_skips_escaped_semicolon() {
    let cs = stylepack::text::to_chars("a\\;b; rest");
    let (stmt, next) = stylepack::scan::read_until_semicolon(&cs, 0).unwrap();
    assert_eq!(next, 5);
    assert_eq!(stylepack::text::from_chars(&stmt), "a\\;b;");
}
