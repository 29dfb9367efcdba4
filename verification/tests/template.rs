use simple_html_template::{Error, Errors, Mapping, Template};

#[test]
fn template_ok() {
    let test = "Hello, ${name}, nice to meet you.";
    let mut args = Mapping::new();
    args.insert("name", "Charles");

    let s = Template::new(test).unwrap().render(&args).unwrap();

    assert_eq!(s, "Hello, Charles, nice to meet you.");
}

#[test]
fn err_missing() {
    let test = "Hello, ${name}, nice to meet you.";
    let args = Mapping::new();

    let e = Template::new(test).unwrap().render(&args).unwrap_err();

    let expected = Errors { inner: vec![Error::Missing("name".to_owned())] };

    assert_eq!(e, expected);
}

#[test]
fn err_wrong() {
    let test = "Hello, ${name}, nice to meet you.";
    let mut args = Mapping::new();
    args.insert("eman", "selrahC");

    let e = Template::new(test).unwrap().render(&args).unwrap_err();

    let expected = Errors {
        inner: vec![Error::Extra("eman".to_owned()), Error::Missing("name".to_owned())],
    };

    assert_eq!(e, expected);
}

#[test]
fn template_ok_beginning() {
    let test = "${plural capitalized food} taste good.";
    let mut args = Mapping::new();
    args.insert("plural capitalized food", "Apples");

    let s = Template::new(test).unwrap().render(&args).unwrap();

    assert_eq!(s, "Apples taste good.");
}

#[test]
fn template_ok_only() {
    let test = "${why}";
    let mut args = Mapping::new();
    args.insert("why", "would you ever do this");

    let s = Template::new(test).unwrap().render(&args).unwrap();

    assert_eq!(s, "would you ever do this");
}

#[test]
fn template_ok_end() {
    let test = "I really love ${something}";
    let mut args = Mapping::new();
    args.insert("something", "programming");

    let s = Template::new(test).unwrap().render(&args).unwrap();

    assert_eq!(s, "I really love programming");
}

#[test]
fn template_ok_empty() {
    let test = "";
    let args = Mapping::new();

    let s = Template::new(test).unwrap().render(&args).unwrap();

    assert_eq!(s, "");
}

#[test]
fn template_ok_two() {
    let test = "Hello, ${name}. You remind me of another ${name}.";
    let mut args = Mapping::new();
    args.insert("name", "Charles");

    let s = Template::new(test).unwrap().render(&args).unwrap();

    assert_eq!(s, "Hello, Charles. You remind me of another Charles.");
}

#[test]
fn template_ok_twice() {
    let test = "${name}, why are you writing code at ${time} again?";
    let mut args = Mapping::new();
    args.insert("name", "Charles");
    args.insert("time", "2 AM");

    let s = Template::new(test).unwrap().render(&args).unwrap();

    assert_eq!(s, "Charles, why are you writing code at 2 AM again?");
}

#[test]
fn err_missing_name() {
    let test = "${name}, why are you writing code at ${time} again?";
    let mut args = Mapping::new();
    args.insert("time", "2 AM");

    let e = Template::new(test).unwrap().render(&args).unwrap_err();

    let expected = Errors { inner: vec![Error::Missing("name".into())] };

    assert_eq!(e, expected);
}

#[test]
fn err_missing_time() {
    let test = "${name}, why are you writing code at ${time} again?";
    let mut args = Mapping::new();
    args.insert("name", "Charles");

    let e = Template::new(test).unwrap().render(&args).unwrap_err();

    let expected = Errors { inner: vec![Error::Missing("time".into())] };

    assert_eq!(e, expected);
}

#[test]
fn err_missing_both() {
    let test = "${name}, why are you writing code at ${time} again?";
    let args = Mapping::new();

    let e = Template::new(test).unwrap().render(&args).unwrap_err();

    let mut errors = vec![Error::Missing("name".into()), Error::Missing("time".into())];

    let expected_1 = Errors { inner: errors.clone() };

    // Same thing but the other order, since a mapping promises no
    // iteration order.
    errors.swap(0, 1);
    let expected_2 = Errors { inner: errors };

    assert!(e == expected_1 || e == expected_2);

    // These will be in the order they show up in the template.
    let expected_msg = "missing keys: \"name\" and \"time\"";

    assert_eq!(e.message(), expected_msg);
}

#[test]
fn template_ok_missing_keys() {
    let test = "${wow}${lots}${of}${keys}";
    let args = Mapping::new();

    let e = Template::new(test).unwrap().render(&args).unwrap_err();

    assert_eq!(e.message(), "missing keys: \"wow\", \"lots\", \"of\", and \"keys\"");
}

#[test]
fn template_ok_unclosed() {
    let test = "Hello, ${name";
    let mut args = Mapping::new();
    args.insert("name", "Charles");

    match Template::new(test) {
        Err(e) => {
            assert_eq!(e, Error::Unclosed(7));
        },
        Ok(_) => {
            panic!("should have been an error");
        },
    }
}

#[test]
fn template_ok_mismatched() {
    let test = "Hello, ${name. You smell like ${smell}.";
    let mut args = Mapping::new();
    args.insert("name", "Charles");
    args.insert("smell", "human");

    let actual = Template::new(test).unwrap().render(&args).unwrap_err();

    let mut errors = vec![
        Error::Extra("smell".into()),
        Error::Extra("name".into()),
        Error::Missing("name. You smell like ${smell".into()),
    ];

    let expected_1 = Errors { inner: errors.clone() };

    // The `Extra`s are swapped because a mapping promises no iteration
    // order.
    errors.swap(0, 1);
    let expected_2 = Errors { inner: errors };

    assert!(actual == expected_1 || actual == expected_2);
}
