use simple_html_template::{Error, Mapping, Template, TemplateCache};

#[test]
fn round_trip_no_placeholders() {
    let test = "plain text, no placeholders at all";
    let args = Mapping::new();

    let s = Template::new(test).unwrap().render(&args).unwrap();

    assert_eq!(s, test);
}

#[test]
fn exact_output_length() {
    let test = "ab${key}cd";
    let mut args = Mapping::new();
    args.insert("key", "0123456789");

    let s = Template::new(test).unwrap().render(&args).unwrap();

    // len(source) - span length + value length: 10 - 6 + 10.
    assert_eq!(s.len(), test.len() - "${key}".len() + "0123456789".len());
    assert_eq!(s, "ab0123456789cd");
}

#[test]
fn missing_errors_keep_template_order() {
    let test = "${A}${B}${A}";
    let args = Mapping::new();

    let e = Template::new(test).unwrap().render(&args).unwrap_err();

    let expected = vec![
        Error::Missing("A".to_owned()),
        Error::Missing("B".to_owned()),
        Error::Missing("A".to_owned()),
    ];

    assert_eq!(e.into_inner(), expected);
}

#[test]
fn renders_reuse_one_template() {
    let test = "Hello, ${name}!";
    let template = Template::new(test).unwrap();

    let mut first = Mapping::new();
    first.insert("name", "Ada");
    let mut second = Mapping::new();
    second.insert("name", "Grace");

    let a = template.render(&first).unwrap();
    let b = template.render(&second).unwrap();
    let a_again = template.render(&first).unwrap();

    assert_eq!(a, "Hello, Ada!");
    assert_eq!(b, "Hello, Grace!");
    assert_eq!(a_again, "Hello, Ada!");
}

#[test]
fn empty_key_placeholder() {
    let test = "x${}y";
    let mut args = Mapping::new();
    args.insert("", "dash");

    let s = Template::new(test).unwrap().render(&args).unwrap();

    assert_eq!(s, "xdashy");
}

#[test]
fn unclosed_offset_in_message() {
    let e = Error::Unclosed(1234);

    assert_eq!(e.message(), "unclosed delimitor opened at byte 1234");
}

#[test]
fn single_error_messages() {
    assert_eq!(Error::Missing("name".to_owned()).message(), "missing key \"name\"");
    assert_eq!(Error::Extra("eman".to_owned()).message(), "extraneous key \"eman\"");
    assert_eq!(Error::Unclosed(0).message(), "unclosed delimitor opened at byte 0");
}

#[test]
fn grouped_message_mixed_kinds() {
    let test = "${name}";
    let mut args = Mapping::new();
    args.insert("eman", "x");

    let e = Template::new(test).unwrap().render(&args).unwrap_err();

    assert_eq!(e.message(), "missing key: \"name\"; extraneous key: \"eman\"");
}

#[test]
fn format_error_joins_oxford_style() {
    let one = vec!["a".to_owned()];
    let two = vec!["a".to_owned(), "b".to_owned()];
    let three = vec!["a".to_owned(), "b".to_owned(), "c".to_owned()];

    assert_eq!(simple_html_template::errors::format_error("missing key", &one, true), "missing key: \"a\"");
    assert_eq!(
        simple_html_template::errors::format_error("missing key", &two, true),
        "missing keys: \"a\" and \"b\"",
    );
    assert_eq!(
        simple_html_template::errors::format_error("missing key", &three, false),
        "missing keys: a, b, and c",
    );
    assert_eq!(simple_html_template::errors::format_error("missing key", &Vec::new(), true), "");
}

#[test]
fn mapping_insert_replaces() {
    let mut m = Mapping::new();
    m.insert("key", "first");
    m.insert("key", "second");

    assert_eq!(m.len(), 1);
    assert_eq!(m.get("key").unwrap().as_str(), "second");
    assert!(m.get("other").is_none());
}

#[test]
fn cache_renders_by_name() {
    let sources = vec![
        ("greeting".to_owned(), "Hello, ${name}!".to_owned()),
        ("farewell".to_owned(), "Goodbye, ${name}.".to_owned()),
    ];
    let cache = TemplateCache::new(&sources);

    let mut args = Mapping::new();
    args.insert("name", "Charles");

    assert_eq!(cache.render("greeting", &args).unwrap(), "Hello, Charles!");
    assert_eq!(cache.render("farewell", &args).unwrap(), "Goodbye, Charles.");
    assert_eq!(cache.render_plain("greeting"), "Hello, ${name}!");
}

#[test]
fn cache_render_reports_errors() {
    let sources = vec![("greeting".to_owned(), "Hello, ${name}!".to_owned())];
    let cache = TemplateCache::new(&sources);

    let args = Mapping::new();
    let e = cache.render("greeting", &args).unwrap_err();

    assert_eq!(e.into_inner(), vec![Error::Missing("name".to_owned())]);
}

#[test]
fn adjacent_and_repeated_placeholders() {
    let test = "${a}${b}${a}";
    let mut args = Mapping::new();
    args.insert("a", "1");
    args.insert("b", "22");

    let s = Template::new(test).unwrap().render(&args).unwrap();

    assert_eq!(s, "1221");
}

#[test]
fn stray_close_before_placeholder() {
    // A closing delimiter with no opening one before the first placeholder
    // is literal text; the placeholder still parses.
    let test = "}${x}";
    let mut args = Mapping::new();
    args.insert("x", "y");

    let s = Template::new(test).unwrap().render(&args).unwrap();

    assert_eq!(s, "}y");
}

#[test]
fn message_groups_all_kinds() {
    let e = simple_html_template::Errors {
        inner: vec![
            Error::Unclosed(5),
            Error::Missing("a".to_owned()),
            Error::Unclosed(17),
            Error::Extra("b".to_owned()),
        ],
    };

    assert_eq!(
        e.message(),
        "unclosed delimiter opened at bytes: 5 and 17; missing key: \"a\"; extraneous key: \"b\"",
    );
}

#[test]
fn message_of_no_errors_is_empty() {
    let e = simple_html_template::Errors { inner: Vec::new() };

    assert_eq!(e.message(), "");
}
