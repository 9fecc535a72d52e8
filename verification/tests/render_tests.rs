use archival::context::{to_json, CtxValue};
use archival::fields::{DateTime, FieldValue, FieldValues};
use archival::object::{sort_objects, Object};
use archival::object_definition::{ObjectDefinition, SchemaTable};
use archival::page::{ObjectIndex, Page, RenderError, TemplateType};
use std::error::Error;

fn tour_date_values(date: &str, link: &str) -> FieldValues {
    let mut v = FieldValues::new();
    v.insert(
        "date".to_string(),
        FieldValue::Date(DateTime::from(date).unwrap()),
    );
    v.insert("ticket_link".to_string(), FieldValue::String(link.to_string()));
    v
}

fn artist_object() -> Object {
    let mut numbers = FieldValues::new();
    numbers.insert("number".to_string(), FieldValue::Number("2.57".to_string()));
    let mut artist_values = FieldValues::new();
    artist_values.insert(
        "name".to_string(),
        FieldValue::String("Tormenta Rey".to_string()),
    );
    artist_values.insert("numbers".to_string(), FieldValue::Objects(vec![numbers]));
    artist_values.insert(
        "tour_dates".to_string(),
        FieldValue::Objects(vec![tour_date_values("12/22/2022 00:00:00", "foo.com")]),
    );
    Object {
        filename: "tormenta-rey".to_string(),
        object_name: "artist".to_string(),
        path: "artist/tormenta-rey".to_string(),
        order: 1,
        values: artist_values,
    }
}

fn c_object() -> Object {
    let mut links = FieldValues::new();
    links.insert("url".to_string(), FieldValue::String("foo.com".to_string()));
    let mut c_values = FieldValues::new();
    c_values.insert(
        "content".to_string(),
        FieldValue::Markdown("# hello".to_string()),
    );
    c_values.insert("name".to_string(), FieldValue::String("home".to_string()));
    c_values.insert("links".to_string(), FieldValue::Objects(vec![links]));
    Object {
        filename: "home".to_string(),
        object_name: "c".to_string(),
        path: "home".to_string(),
        order: -1,
        values: c_values,
    }
}

fn get_objects_map() -> ObjectIndex {
    let mut index = ObjectIndex::new();
    index.insert("artist".to_string(), vec![artist_object()]);
    index.insert("c".to_string(), vec![c_object()]);
    index
}

fn artist_definition() -> ObjectDefinition {
    let mut tour_dates = SchemaTable::new();
    tour_dates.push_text("date".to_string(), "date".to_string());
    tour_dates.push_text("ticket_link".to_string(), "string".to_string());
    let mut numbers = SchemaTable::new();
    numbers.push_text("number".to_string(), "number".to_string());
    let mut artist = SchemaTable::new();
    artist.push_text("name".to_string(), "string".to_string());
    artist.push_text("template".to_string(), "artist".to_string());
    artist.push_nested("tour_dates".to_string(), tour_dates);
    artist.push_nested("numbers".to_string(), numbers);
    ObjectDefinition::new("artist", &artist).unwrap()
}

fn page_content() -> &'static str {
    "{% assign c = objects.c | where: \"name\", \"home\" | first %}
    name: {{c.name}}
    content: {{c.content}}
    page_path: {{c.path}}
    {% for link in c.links %}
      link: {{link.url}}
    {% endfor %}
    {% for artist in objects.artist %}
      artist: {{artist.name}}
      path: {{artist.path}}
    {% endfor %}
    "
}

fn artist_template_content() -> &'static str {
    "name: {{artist.name}}
    {% for number in artist.numbers %}
      number: {{number.number}}
    {% endfor %}
    {% for date in artist.tour_dates %}
      date: {{date.date | date: \"%b %d, %y\"}}
      link: {{date.ticket_link}}
    {% endfor %}"
}

#[test]
fn regular_page() -> Result<(), Box<dyn Error>> {
    let objects_map = get_objects_map();
    let page = Page::new(
        "home".to_string(),
        page_content().to_string(),
        TemplateType::Default,
    );
    let rendered = page.render(&objects_map).unwrap();
    println!("rendered: {}", rendered);
    assert!(rendered.contains("name: home"), "filtered object");
    assert!(
        rendered.contains("content: <h1>hello</h1>"),
        "markdown field"
    );
    assert!(rendered.contains("link: foo.com"), "child string field");
    assert!(
        rendered.contains("artist: Tormenta Rey"),
        "item from objects"
    );
    assert!(rendered.contains("page_path: home"), "path is defined");
    assert!(
        rendered.contains("path: artist/tormenta-rey"),
        "items define paths"
    );
    Ok(())
}

#[test]
fn template_page() -> Result<(), Box<dyn Error>> {
    let objects_map = get_objects_map();
    let object = artist_object();
    let artist_def = artist_definition();
    let page = Page::new_with_template(
        "tormenta-rey".to_string(),
        artist_def,
        object,
        artist_template_content().to_string(),
        TemplateType::Default,
    );
    let rendered = page.render(&objects_map).unwrap();
    println!("rendered: {}", rendered);
    assert!(rendered.contains("name: Tormenta Rey"), "root field");
    assert!(rendered.contains("number: 2.57"), "child number field");
    assert!(rendered.contains("date: Dec 22, 22"), "child date field");
    assert!(rendered.contains("link: foo.com"), "child string field");
    Ok(())
}

#[test]
fn template_page_exposes_metadata() {
    let objects_map = get_objects_map();
    let page = Page::new_with_template(
        "tormenta-rey".to_string(),
        artist_definition(),
        artist_object(),
        "{{artist.object_name}}/{{artist.order}} at {{artist.path}} on {{page}}".to_string(),
        TemplateType::Default,
    );
    let rendered = page.render(&objects_map).unwrap();
    assert!(rendered.contains("artist/1 at artist/tormenta-rey"));
    assert!(rendered.contains("on tormenta-rey"));
}

#[test]
fn template_parse_failure_names_page() {
    let objects_map = ObjectIndex::new();
    let page = Page::new(
        "broken".to_string(),
        "{% for x in %}".to_string(),
        TemplateType::Default,
    );
    match page.render(&objects_map).unwrap_err() {
        RenderError::TemplateParse { page, .. } => assert_eq!(page, "broken"),
        other => panic!("unexpected error {:?}", other),
    }
}

#[test]
fn template_render_failure_names_page() {
    let objects_map = ObjectIndex::new();
    let page = Page::new(
        "half".to_string(),
        "{{ missing.thing }}".to_string(),
        TemplateType::Default,
    );
    match page.render(&objects_map).unwrap_err() {
        RenderError::TemplateRender { page, .. } => assert_eq!(page, "half"),
        other => panic!("unexpected error {:?}", other),
    }
}

#[test]
fn unconvertible_value_is_reported() {
    let mut values = FieldValues::new();
    values.insert("n".to_string(), FieldValue::Number("abc".to_string()));
    let broken = Object {
        filename: "x".to_string(),
        object_name: "c".to_string(),
        path: "x".to_string(),
        order: 0,
        values,
    };
    let mut index = ObjectIndex::new();
    index.insert("c".to_string(), vec![broken]);
    let page = Page::new("page1".to_string(), "static".to_string(), TemplateType::Default);
    match page.render(&index).unwrap_err() {
        RenderError::UnconvertibleValue { page } => assert_eq!(page, "page1"),
        other => panic!("unexpected error {:?}", other),
    }
}

#[test]
fn object_validation_against_schema() {
    let def = artist_definition();
    assert!(artist_object().matches_definition(&def));
    // a scalar under a child's name is inconsistent
    let mut bad_values = FieldValues::new();
    bad_values.insert(
        "tour_dates".to_string(),
        FieldValue::String("not a list".to_string()),
    );
    let bad = Object {
        filename: "x".to_string(),
        object_name: "artist".to_string(),
        path: "x".to_string(),
        order: 0,
        values: bad_values,
    };
    assert!(!bad.matches_definition(&def));
    // a value of the wrong variant is inconsistent
    let mut mistyped = FieldValues::new();
    mistyped.insert("name".to_string(), FieldValue::Boolean(true));
    let mistyped_object = Object {
        filename: "y".to_string(),
        object_name: "artist".to_string(),
        path: "y".to_string(),
        order: 0,
        values: mistyped,
    };
    assert!(!mistyped_object.matches_definition(&def));
    // naming another schema is inconsistent
    let renamed = Object {
        object_name: "example".to_string(),
        ..artist_object()
    };
    assert!(!renamed.matches_definition(&def));
}

#[test]
fn sort_objects_orders_and_breaks_ties_by_filename() {
    let mk = |filename: &str, order: i64| Object {
        filename: filename.to_string(),
        object_name: "c".to_string(),
        path: filename.to_string(),
        order,
        values: FieldValues::new(),
    };
    let sorted = sort_objects(vec![
        mk("delta", 2),
        mk("bravo", 1),
        mk("alpha", 2),
        mk("echo", 1),
        mk("alpha", 1),
    ]);
    let names: Vec<(i64, String)> = sorted
        .iter()
        .map(|o| (o.order, o.filename.clone()))
        .collect();
    assert_eq!(
        names,
        vec![
            (1, "alpha".to_string()),
            (1, "bravo".to_string()),
            (1, "echo".to_string()),
            (2, "alpha".to_string()),
            (2, "delta".to_string()),
        ]
    );
}

#[test]
fn template_name_parsing() {
    let (base, t) = TemplateType::parse_name("index.liquid").unwrap();
    assert_eq!(base, "index");
    assert!(matches!(t, TemplateType::Default));
    let (base, t) = TemplateType::parse_name("style.css.liquid").unwrap();
    assert_eq!(base, "style");
    assert!(matches!(t, TemplateType::Css));
    let (base, t) = TemplateType::parse_name("feed.RSS.liquid").unwrap();
    assert_eq!(base, "feed");
    assert!(matches!(t, TemplateType::Rss));
    let (base, t) = TemplateType::parse_name("a.b.c.liquid").unwrap();
    assert_eq!(base, "a.b");
    assert!(matches!(t, TemplateType::Unknown(u) if u == "c"));
    assert!(TemplateType::parse_name("readme.md").is_none());
    assert!(TemplateType::parse_name(".liquid").is_none());
    // a newline never sits inside a base name, as in the file-name pattern
    assert!(TemplateType::parse_name("a\nb.liquid").is_none());
    let (base, t) = TemplateType::parse_name("a.liquid\nb").unwrap();
    assert_eq!(base, "a");
    assert!(matches!(t, TemplateType::Default));
}

#[test]
fn default_markdown_serializes_empty() {
    let zero = archival::object_definition::FieldType::Markdown.default_value();
    let c = archival::context::value_to_ctx(&zero).unwrap();
    assert_eq!(to_json(&c), "\"\"");
}

#[test]
fn json_escaping() {
    let v = CtxValue::Table(vec![
        ("quote".to_string(), CtxValue::Text("a\"b\n".to_string())),
        ("n".to_string(), CtxValue::Num("-3.5".to_string())),
        ("ok".to_string(), CtxValue::Truth(true)),
        (
            "items".to_string(),
            CtxValue::List(vec![CtxValue::Text("x".to_string())]),
        ),
    ]);
    assert_eq!(
        to_json(&v),
        "{\"quote\":\"a\\\"b\\n\",\"n\":-3.5,\"ok\":true,\"items\":[\"x\"]}"
    );
}

#[test]
fn extensions() {
    assert_eq!(TemplateType::Default.extension(), "html");
    assert_eq!(TemplateType::Html.extension(), "html");
    assert_eq!(TemplateType::Css.extension(), "css");
    assert_eq!(TemplateType::Csv.extension(), "css");
    assert_eq!(TemplateType::Json.extension(), "json");
    assert_eq!(TemplateType::Rss.extension(), "rss");
    assert!(matches!(TemplateType::from_ext("HTML"), TemplateType::Html));
    assert!(matches!(
        TemplateType::from_ext("xml"),
        TemplateType::Unknown(u) if u == "xml"
    ));
    let page = Page::new(
        "home".to_string(),
        "x".to_string(),
        TemplateType::Json,
    );
    assert_eq!(page.extension(), "json");
}

#[test]
fn schema_bound_scenario_end_to_end() -> Result<(), Box<dyn Error>> {
    // parse the schema from source, build a matching record, and render
    let toml_table: toml::Table = toml::from_str(
        "[artist]
        name = \"string\"
        template = \"artist\"
        [artist.tour_dates]
        date = \"date\"
        ticket_link = \"string\"",
    )?;
    let mut table = SchemaTable::new();
    for (k, v) in toml_table.iter() {
        match v {
            toml::Value::Table(child) => {
                let mut inner = SchemaTable::new();
                for (ck, cv) in child.iter() {
                    match cv {
                        toml::Value::Table(grand) => {
                            let mut g = SchemaTable::new();
                            for (gk, gv) in grand.iter() {
                                if let toml::Value::String(s) = gv {
                                    g.push_text(gk.clone(), s.clone());
                                }
                            }
                            inner.push_nested(ck.clone(), g);
                        }
                        toml::Value::String(s) => inner.push_text(ck.clone(), s.clone()),
                        _ => inner.push_other(ck.clone()),
                    }
                }
                table.push_nested(k.clone(), inner);
            }
            toml::Value::String(s) => table.push_text(k.clone(), s.clone()),
            _ => table.push_other(k.clone()),
        }
    }
    let defs = ObjectDefinition::from_table(&table).unwrap();
    let artist_def = defs.get("artist").unwrap();
    assert_eq!(artist_def.template, Some("artist".to_string()));

    let mut values = FieldValues::new();
    values.insert(
        "name".to_string(),
        FieldValue::String("Tormenta Rey".to_string()),
    );
    values.insert(
        "tour_dates".to_string(),
        FieldValue::Objects(vec![tour_date_values("12/22/2022", "tix.example")]),
    );
    let object = Object {
        filename: "tormenta-rey".to_string(),
        object_name: "artist".to_string(),
        path: "artist/tormenta-rey".to_string(),
        order: 1,
        values,
    };
    let def = ObjectDefinition::new("artist", &table_of(artist_def)).unwrap();
    let page = Page::new_with_template(
        "tormenta-rey".to_string(),
        def,
        object,
        "{{artist.name}}: {% for d in artist.tour_dates %}{{d.date | date: \"%b %d, %y\"}}{% endfor %}"
            .to_string(),
        TemplateType::Default,
    );
    let rendered = page.render(&get_objects_map()).unwrap();
    assert!(rendered.contains("Tormenta Rey"));
    assert!(rendered.contains("Dec 22, 22"));
    Ok(())
}

// rebuilds a source table equivalent to a parsed definition, so the
// scenario above can own its schema
fn table_of(def: &ObjectDefinition) -> SchemaTable {
    let mut out = SchemaTable::new();
    for key in def.field_order.iter() {
        if let Some(t) = def.field(key) {
            out.push_text(key.clone(), t.to_str().to_string());
        } else if let Some(child) = def.child(key) {
            out.push_nested(key.clone(), table_of(child));
        } else if key == "template" {
            if let Some(t) = &def.template {
                out.push_text(key.clone(), t.clone());
            }
        }
    }
    out
}
