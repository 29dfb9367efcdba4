use simple_html_template::{Mapping, Template};

#[test]
fn html_string() {
    let mut args = Mapping::new();
    args.insert_html("0", "Cat");
    args.insert_html("1", "<b>Cat</b>");

    assert_eq!(args.get("0").unwrap().as_str(), "Cat");
    assert_eq!(args.get("1").unwrap().as_str(), "&lt;b&gt;Cat&lt;/b&gt;");
}

#[test]
fn html_template() {
    let template = Template::new("${capitalized specific} are my favorite ${category}.").unwrap();

    let mut args = Mapping::new();
    args.insert_html("capitalized specific", "<b>Cats</b>");
    args.insert_html("category", "<i>animal</i>");

    let s = template.render(&args).unwrap();

    assert_eq!(s, "&lt;b&gt;Cats&lt;/b&gt; are my favorite &lt;i&gt;animal&lt;/i&gt;.");
}

#[test]
fn html_string_strong() {
    let mut args = Mapping::new();
    args.insert_html_strong("greeting", "\"No\", he said.");

    assert_eq!(args.get("greeting").unwrap().as_str(), "&quot;No&quot;&#x2C;&#x20;he&#x20;said&#x2E;");
}

#[test]
fn render_template_escapes() {
    let mut lookup = Mapping::new();
    lookup.insert("content", "<b>bold</b> & more");

    let s = simple_html_template::render_template("<p>${content}</p>", &lookup);

    assert_eq!(s, "<p>&lt;b&gt;bold&lt;/b&gt; &amp; more</p>");
}

#[test]
fn render_template_strong_escapes() {
    let mut lookup = Mapping::new();
    lookup.insert("value", "two words");

    let s = simple_html_template::render_template_strong("<option value=${value}>", &lookup);

    assert_eq!(s, "<option value=two&#x20;words>");
}

#[test]
fn render_template_unsafe_keeps_values() {
    let mut lookup = Mapping::new();
    lookup.insert("content", "<b>bold</b>");

    let s = simple_html_template::render_template_unsafe("<p>${content}</p>", &lookup);

    assert_eq!(s, "<p><b>bold</b></p>");
}
