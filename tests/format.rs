use html_format::render::{decimal_string, signed_decimal_string};
use html_format::scan::split_template;
use html_format::{html_format, html_format_dynamic, interpolate, parse_literal_tpl, FormatError, Render};

fn no_bindings() -> Vec<(String, &'static str)> {
    Vec::new()
}

fn strs(v: &[&str]) -> Vec<String> {
    v.iter().map(|s| s.to_string()).collect()
}

#[test]
fn no_placeholders_round_trip() {
    assert_eq!(
        html_format("no braces here", &no_bindings()),
        Ok("no braces here".to_string())
    );
}

#[test]
fn empty_template() {
    assert_eq!(html_format("", &no_bindings()), Ok(String::new()));
    assert_eq!(html_format_dynamic("", &no_bindings()), "");
}

#[test]
fn single_braces_are_doubled_on_the_strict_path() {
    assert_eq!(html_format("a { b } c", &no_bindings()), Ok("a {{ b }} c".to_string()));
}

#[test]
fn single_substitution() {
    let b = vec![("name".to_string(), "World")];
    assert_eq!(html_format("Hello, {{name}}!", &b), Ok("Hello, World!".to_string()));
}

#[test]
fn multiple_substitutions_any_binding_order() {
    let b = vec![("b".to_string(), "Y"), ("a".to_string(), "X")];
    assert_eq!(html_format("{{a}}-{{b}}-{{a}}", &b), Ok("X-Y-X".to_string()));
}

#[test]
fn missing_key_fails() {
    let r = html_format("{{missing}}", &no_bindings());
    assert_eq!(r, Err(FormatError::MissingKey("missing".to_string())));
}

#[test]
fn first_missing_key_is_reported() {
    let b = vec![("a".to_string(), "1")];
    let r = html_format("{{a}} {{x}} {{y}}", &b);
    assert_eq!(r.clone().unwrap_err().key().as_str(), "x");
    assert_eq!(r, Err(FormatError::MissingKey("x".to_string())));
}

#[test]
fn whitespace_inside_placeholder_ignored() {
    let b = vec![("name".to_string(), "Z")];
    assert_eq!(html_format("{{  name  }}", &b), Ok("Z".to_string()));
}

#[test]
fn unicode_whitespace_inside_placeholder_ignored() {
    let b = vec![("name".to_string(), "Z")];
    assert_eq!(html_format("{{\u{3000}name\t\u{2003}}}", &b), Ok("Z".to_string()));
}

#[test]
fn dynamic_keeps_single_braces_and_unknown_placeholders() {
    assert_eq!(html_format_dynamic("a { b } c", &no_bindings()), "a { b } c");
    assert_eq!(html_format_dynamic("x {{key}} y", &no_bindings()), "x {{key}} y");
    assert_eq!(html_format_dynamic("{{  key }}", &no_bindings()), "{{key}}");
}

#[test]
fn dynamic_substitutes_known_keys() {
    let b = vec![("who".to_string(), "you")];
    assert_eq!(
        html_format_dynamic("{ hi {{ who }}, {{other}} }", &b),
        "{ hi you, {{other}} }"
    );
}

#[test]
fn output_length_exceeds_estimate() {
    let long = "x".repeat(100);
    let b = vec![("v".to_string(), long.clone())];
    let out = html_format("<{{v}}>{{v}}", &b).unwrap();
    assert_eq!(out.len(), 202);
    assert_eq!(out, format!("<{}>{}", long, long));
}

#[test]
fn scanner_splits_literals_and_keys() {
    let (lits, keys, len) = parse_literal_tpl("a{b}{{ k }}c");
    assert_eq!(lits, strs(&["a{{b}}", "c"]));
    assert_eq!(keys, strs(&["k"]));
    assert_eq!(len, 7);
}

#[test]
fn scanner_keeps_empty_literals() {
    let (lits, keys, len) = parse_literal_tpl("{{a}}{{b}}");
    assert_eq!(lits, strs(&["", "", ""]));
    assert_eq!(keys, strs(&["a", "b"]));
    assert_eq!(len, 0);
}

#[test]
fn scanner_without_placeholders() {
    let (lits, keys, len) = parse_literal_tpl("plain");
    assert_eq!(lits, strs(&["plain"]));
    assert!(keys.is_empty());
    assert_eq!(len, 5);
}

#[test]
fn scanner_unterminated_placeholder_runs_to_end() {
    let (lits, keys, _) = parse_literal_tpl("x{{ key ");
    assert_eq!(lits, strs(&["x", ""]));
    assert_eq!(keys, strs(&["key"]));
}

#[test]
fn scanner_skips_two_characters_after_key() {
    let (lits, keys, _) = parse_literal_tpl("{{a}bcd");
    assert_eq!(lits, strs(&["", "cd"]));
    assert_eq!(keys, strs(&["a"]));
}

#[test]
fn scanner_keeps_non_ascii_text() {
    let (lits, keys, len) = parse_literal_tpl("héllo {{ñame}} wörld");
    assert_eq!(lits, strs(&["héllo ", " wörld"]));
    assert_eq!(keys, strs(&["ñame"]));
    assert_eq!(len, 12);
}

#[test]
fn split_without_doubling() {
    let (lits, keys, len) = split_template("{x}{{k}}}", false);
    assert_eq!(lits, strs(&["{x}", "}"]));
    assert_eq!(keys, strs(&["k"]));
    assert_eq!(len, 4);
}

#[test]
fn interpolate_scanned_parts() {
    let b = vec![("k".to_string(), 7u64)];
    let r = interpolate(&strs(&["<", ">"]), &strs(&["k"]), 2, &b);
    assert_eq!(r, Ok("<7>".to_string()));
}

#[test]
fn first_binding_of_a_name_wins() {
    let b = vec![("k".to_string(), 1i32), ("k".to_string(), 2i32)];
    assert_eq!(html_format("{{k}}", &b), Ok("1".to_string()));
}

#[test]
fn numbers_render_in_decimal() {
    assert_eq!(decimal_string(0), "0");
    assert_eq!(decimal_string(1203), "1203");
    assert_eq!(decimal_string(u64::MAX), "18446744073709551615");
    assert_eq!(signed_decimal_string(-45), "-45");
    assert_eq!(signed_decimal_string(i64::MIN), "-9223372036854775808");
    assert_eq!(signed_decimal_string(i64::MAX), "9223372036854775807");
    assert_eq!((-7i32).render(), "-7");
    assert_eq!(42u32.render(), "42");
    assert_eq!(9usize.render(), "9");
}

#[test]
fn other_values_render() {
    assert_eq!(true.render(), "true");
    assert_eq!(false.render(), "false");
    assert_eq!('é'.render(), "é");
    assert_eq!("abc".render(), "abc");
    assert_eq!("xyz".to_string().render(), "xyz");
}

#[test]
fn integer_values_substitute() {
    let b = vec![("n".to_string(), -12i64)];
    assert_eq!(html_format("n={{n}};", &b), Ok("n=-12;".to_string()));
}

#[test]
fn binding_order_does_not_matter() {
    let t = "{{x}}/{{y}}/{{x}}/{{z}}";
    let b1 = vec![("x".to_string(), 1u64), ("y".to_string(), 2u64), ("z".to_string(), 3u64)];
    let b2 = vec![("z".to_string(), 3u64), ("x".to_string(), 1u64), ("y".to_string(), 2u64)];
    assert_eq!(html_format(t, &b1), Ok("1/2/1/3".to_string()));
    assert_eq!(html_format(t, &b1), html_format(t, &b2));
}
