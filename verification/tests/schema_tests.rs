use archival::fields::{DateTime, FieldValue};
use archival::object_definition::{
    FieldType, InvalidFieldError, ObjectDefinition, SchemaError, SchemaTable,
};
use std::error::Error;

fn table_from_toml(t: &toml::Table) -> SchemaTable {
    let mut out = SchemaTable::new();
    for (k, v) in t.iter() {
        match v {
            toml::Value::Table(child) => out.push_nested(k.clone(), table_from_toml(child)),
            toml::Value::String(s) => out.push_text(k.clone(), s.clone()),
            _ => out.push_other(k.clone()),
        }
    }
    out
}

fn artist_and_example_definition_str() -> &'static str {
    "[artist]
    name = \"string\"
    template = \"artist\"
    [artist.tour_dates]
    date = \"date\"
    ticket_link = \"string\"
    [artist.numbers]
    number = \"number\"

    [example]
    content = \"markdown\"
    [example.links]
    url = \"string\""
}

#[test]
fn parsing() -> Result<(), Box<dyn Error>> {
    let toml_table: toml::Table = toml::from_str(artist_and_example_definition_str())?;
    let table = table_from_toml(&toml_table);
    let defs = ObjectDefinition::from_table(&table).unwrap();

    println!("{:?}", defs);

    assert_eq!(defs.len(), 2);
    assert!(defs.get("artist").is_some());
    assert!(defs.get("example").is_some());
    let artist = defs.get("artist").unwrap();
    assert_eq!(artist.field_order.len(), 4);
    assert_eq!(artist.field_order[0], "name".to_string());
    assert_eq!(artist.field_order[1], "template".to_string());
    assert_eq!(artist.field_order[2], "tour_dates".to_string());
    assert_eq!(artist.field_order[3], "numbers".to_string());
    assert!(artist.field("name").is_some());
    assert_eq!(artist.field("name").unwrap(), &FieldType::String);
    assert!(
        artist.field("template").is_none(),
        "did not copy the template reserved field"
    );
    assert!(artist.template.is_some());
    assert_eq!(artist.template, Some("artist".to_string()));
    assert_eq!(artist.children.len(), 2);
    assert!(artist.child("tour_dates").is_some());
    assert!(artist.child("numbers").is_some());
    let tour_dates = artist.child("tour_dates").unwrap();
    assert!(tour_dates.field("date").is_some());
    assert_eq!(tour_dates.field("date").unwrap(), &FieldType::Date);
    assert!(tour_dates.field("ticket_link").is_some());
    assert_eq!(tour_dates.field("ticket_link").unwrap(), &FieldType::String);
    let numbers = artist.child("numbers").unwrap();
    assert!(numbers.field("number").is_some());
    assert_eq!(numbers.field("number").unwrap(), &FieldType::Number);

    let example = defs.get("example").unwrap();
    assert!(example.field("content").is_some());
    assert_eq!(example.field("content").unwrap(), &FieldType::Markdown);
    assert_eq!(example.children.len(), 1);
    assert!(example.child("links").is_some());
    let links = example.child("links").unwrap();
    assert!(links.field("url").is_some());
    assert_eq!(links.field("url").unwrap(), &FieldType::String);

    Ok(())
}

#[test]
fn field_order_keeps_every_key() {
    // keys whose values are neither tables nor strings stay in the
    // ordering but declare nothing
    let toml_table: toml::Table =
        toml::from_str("a = \"string\"\nb = 3\nc = \"number\"\n[d]\ne = \"date\"").unwrap();
    let table = table_from_toml(&toml_table);
    let def = ObjectDefinition::new("thing", &table).unwrap();
    assert_eq!(def.field_order, vec!["a", "b", "c", "d"]);
    assert!(def.field("a").is_some());
    assert!(def.field("b").is_none());
    assert!(def.field("c").is_some());
    assert!(def.child("d").is_some());
}

#[test]
fn top_level_non_tables_are_skipped() {
    let toml_table: toml::Table =
        toml::from_str("title = \"my site\"\ncount = 4\n[artist]\nname = \"string\"").unwrap();
    let table = table_from_toml(&toml_table);
    let defs = ObjectDefinition::from_table(&table).unwrap();
    assert_eq!(defs.len(), 1);
    assert!(defs.get("artist").is_some());
    assert!(defs.get("title").is_none());
}

#[test]
fn reserved_schema_name_fails() {
    let mut table = SchemaTable::new();
    table.push_text("name".to_string(), "string".to_string());
    let err = ObjectDefinition::new("template", &table).unwrap_err();
    assert!(matches!(err, SchemaError::ReservedObjectName(n) if n == "template"));
}

#[test]
fn reserved_field_name_fails() {
    let mut table = SchemaTable::new();
    table.push_text("order".to_string(), "string".to_string());
    let err = ObjectDefinition::new("thing", &table).unwrap_err();
    assert!(matches!(err, SchemaError::ReservedField(rf) if rf.field == "order"));
}

#[test]
fn reserved_child_name_fails() {
    let mut inner = SchemaTable::new();
    inner.push_text("x".to_string(), "string".to_string());
    let mut table = SchemaTable::new();
    table.push_nested("path".to_string(), inner);
    let err = ObjectDefinition::new("thing", &table).unwrap_err();
    assert!(matches!(err, SchemaError::ReservedObjectName(n) if n == "path"));
}

#[test]
fn template_keyword_binds_template_not_field() {
    let mut table = SchemaTable::new();
    table.push_text("template".to_string(), "artist".to_string());
    table.push_text("name".to_string(), "string".to_string());
    let def = ObjectDefinition::new("artist_page", &table).unwrap();
    assert_eq!(def.template, Some("artist".to_string()));
    assert!(def.field("template").is_none());
    assert_eq!(def.field_order, vec!["template", "name"]);
}

#[test]
fn unknown_type_name_fails() {
    let mut table = SchemaTable::new();
    table.push_text("name".to_string(), "text".to_string());
    let err = ObjectDefinition::new("thing", &table).unwrap_err();
    assert!(matches!(err, SchemaError::UnrecognizedType(t) if t == "text"));
}

#[test]
fn overdeep_nesting_fails() {
    let mut table = SchemaTable::new();
    table.push_text("x".to_string(), "string".to_string());
    for _ in 0..40 {
        let mut outer = SchemaTable::new();
        outer.push_nested("inner".to_string(), table);
        table = outer;
    }
    let err = ObjectDefinition::new("thing", &table).unwrap_err();
    assert!(matches!(err, SchemaError::NestingTooDeep(_)));
}

#[test]
fn field_type_names_round_trip() {
    for (name, t) in [
        ("string", FieldType::String),
        ("number", FieldType::Number),
        ("date", FieldType::Date),
        ("markdown", FieldType::Markdown),
        ("boolean", FieldType::Boolean),
    ] {
        assert_eq!(FieldType::from_str(name).unwrap(), t);
        assert_eq!(t.to_str(), name);
    }
    let err = FieldType::from_str("float").unwrap_err();
    assert!(matches!(err, InvalidFieldError::UnrecognizedType(s) if s == "float"));
}

#[test]
fn number_type_mismatch_names_field_and_value() {
    let err = FieldValue::from_string("count", FieldType::Number, "abc").unwrap_err();
    match err {
        InvalidFieldError::TypeMismatch {
            field,
            field_type,
            value,
        } => {
            assert_eq!(field, "count");
            assert_eq!(field_type, "number");
            assert_eq!(value, "abc");
        }
        other => panic!("unexpected error {:?}", other),
    }
    let ok = FieldValue::from_string("count", FieldType::Number, "2.57").unwrap();
    assert!(matches!(ok, FieldValue::Number(s) if s == "2.57"));
    let neg = FieldValue::from_string("count", FieldType::Number, "-12").unwrap();
    assert!(matches!(neg, FieldValue::Number(s) if s == "-12"));
    assert!(FieldValue::from_string("count", FieldType::Number, "007").is_err());
    assert!(FieldValue::from_string("count", FieldType::Number, "1.").is_err());
}

#[test]
fn number_exponent_forms() {
    for ok in ["1e300", "2.5e-3", "-1.25E+10", "0e0", "7E8"] {
        assert!(
            matches!(
                FieldValue::from_string("count", FieldType::Number, ok),
                Ok(FieldValue::Number(s)) if s == ok
            ),
            "accepted literal {}",
            ok
        );
    }
    for bad in ["1e", "1e+", "1.e5", "e5", "1.5e2.5", "NaN", "inf"] {
        assert!(
            FieldValue::from_string("count", FieldType::Number, bad).is_err(),
            "rejected literal {}",
            bad
        );
    }
}

#[test]
fn boolean_coercion() {
    let t = FieldValue::from_string("flag", FieldType::Boolean, "true").unwrap();
    assert!(matches!(t, FieldValue::Boolean(true)));
    let f = FieldValue::from_string("flag", FieldType::Boolean, "false").unwrap();
    assert!(matches!(f, FieldValue::Boolean(false)));
    assert!(FieldValue::from_string("flag", FieldType::Boolean, "yes").is_err());
}

#[test]
fn date_parsing_and_validation() {
    let d = DateTime::from("12/22/2022 00:00:00").unwrap();
    assert_eq!(d.year(), 2022);
    assert_eq!(d.month(), 12);
    assert_eq!(d.day(), 22);
    let short = DateTime::from("12/22/2022").unwrap();
    assert_eq!(short, DateTime::new(2022, 12, 22, 0, 0, 0).unwrap());
    let err = DateTime::from("13/40/2022").unwrap_err();
    assert!(matches!(err, InvalidFieldError::InvalidDate(s) if s == "13/40/2022"));
    assert!(DateTime::from("02/29/2023").is_err());
    assert!(DateTime::from("02/29/2024").is_ok());
    assert!(DateTime::from("not a date").is_err());
}

#[test]
fn default_values_are_zero_values() {
    assert!(matches!(
        FieldType::String.default_value(),
        FieldValue::String(s) if s.is_empty()
    ));
    assert!(matches!(
        FieldType::Number.default_value(),
        FieldValue::Number(s) if s == "0"
    ));
    assert!(matches!(
        FieldType::Markdown.default_value(),
        FieldValue::Markdown(s) if s.is_empty()
    ));
    assert!(matches!(
        FieldType::Boolean.default_value(),
        FieldValue::Boolean(false)
    ));
    match FieldType::Date.default_value() {
        FieldValue::Date(d) => {
            assert!(d.is_wf());
            assert!(d.year() >= 1970);
        }
        other => panic!("unexpected default {:?}", other),
    }
}
