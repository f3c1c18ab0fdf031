use proc_macro2::Span;
use sqly::attrs::Rename;
use sqly::builder::{Done, Step};
use sqly::error::Fault;
use sqly::rules::Info;
use sqly::select::Returns;
use sqly::types::{Derived, Field, FieldAttr, ForDelete, ForInsert, ForUpdate, TableAttr};

fn span() -> Span {
    Span::call_site()
}

fn info(s: &str) -> Info<String> {
    Info { span: span(), data: s.to_string() }
}

fn attr() -> FieldAttr {
    FieldAttr {
        column: None,
        rename: None,
        filter: vec![],
        insert: vec![],
        update: vec![],
        optional: None,
        value: None,
        infer: None,
        skip: None,
        key: None,
    }
}

fn field(name: &str) -> Field {
    Field { ident: name.to_string(), span: span(), option: false, attr: attr() }
}

fn key(name: &str) -> Field {
    let mut f = field(name);
    f.attr.key = Some(span());
    f
}

fn table(name: &str) -> TableAttr {
    TableAttr {
        table: name.to_string(),
        path: None,
        rename: None,
        dynamic: None,
        optional: None,
        keyless: None,
        filter: vec![],
        returning: None,
        unchecked: None,
    }
}

fn derived<K>(kind: K, name: &str, fields: Vec<Field>) -> Derived<K> {
    Derived { ident: "Derived".to_string(), fields, attr: table(name), kind }
}

fn text(done: &Done) -> String {
    done.query.clone().unwrap()
}

#[test]
fn delete_by_key() {
    let t = derived(ForDelete, "c11", vec![field("id")]);
    assert!(t.init().is_ok());
    let done = t.query().map_err(|e| e.message).unwrap();
    assert_eq!(text(&done), "DELETE FROM c11 AS \"self\"\nWHERE\n\t\"id\" = $1");
    assert_eq!(done.check, done.query);
    assert_eq!(done.args, vec![0]);
    assert!(done.rest.is_empty());
    assert!(done.steps.is_none());
}

#[test]
fn delete_with_filters() {
    let mut t = derived(ForDelete, "items", vec![field("id"), field("owner")]);
    t.attr.filter = vec![info("$owner IS NOT NULL")];
    t.fields[0].attr.filter = vec![info("$column >= $i")];
    let done = t.query().map_err(|e| e.message).unwrap();
    assert_eq!(
        text(&done),
        "DELETE FROM items AS \"self\"\nWHERE\n\t($1 IS NOT NULL) AND\n\t(id >= $2) AND\n\t\"owner\" = $1"
    );
    assert_eq!(done.args, vec![1, 0]);
}

#[test]
fn delete_unknown_placeholder() {
    let mut t = derived(ForDelete, "items", vec![field("id")]);
    t.fields[0].attr.filter = vec![info("$nothing = 1")];
    let err = t.query().err().unwrap();
    assert_eq!(err.fault, Fault::Unknown);
}

#[test]
fn delete_without_fields_is_incomplete() {
    let mut t = derived(ForDelete, "items", vec![field("id")]);
    t.fields[0].attr.skip = Some(span());
    let err = t.query().err().unwrap();
    assert_eq!(err.fault, Fault::Incomplete);
    assert!(err.message.contains("missing delete filter"));
}

#[test]
fn insert_skips_fields() {
    let mut t = derived(ForInsert, "c12", vec![field("value"), field("skipped"), field("other")]);
    t.fields[1].attr.skip = Some(span());
    assert!(t.init().is_ok());
    let done = t.query().map_err(|e| e.message).unwrap();
    assert_eq!(
        text(&done),
        "INSERT INTO c12 AS \"self\" (\n\t\"value\",\n\t\"other\"\n) VALUES (\n\t$1,\n\t$2\n)"
    );
    assert_eq!(done.args, vec![0, 2]);
    assert!(done.rest.is_empty());
}

#[test]
fn insert_renamed_columns() {
    let mut t = derived(ForInsert, "\"c~14\"", vec![field("full_name"), field("phone_number"), field("email_address"), field("value")]);
    t.attr.rename = Some(Rename::UpperKebabCase);
    t.fields[1].attr.rename = Some(Rename::PascalCase);
    t.fields[2].attr.column = Some(info("e@mail"));
    t.fields[3].attr.rename = Some(Rename::Unchanged);
    t.fields[3].attr.column = Some(info("over+RIDE"));
    let done = t.query().map_err(|e| e.message).unwrap();
    assert_eq!(
        text(&done),
        "INSERT INTO \"c~14\" AS \"self\" (\n\t\"FULL-NAME\",\n\t\"PhoneNumber\",\n\t\"E-MAIL\",\n\t\"over+RIDE\"\n) VALUES (\n\t$1,\n\t$2,\n\t$3,\n\t$4\n)"
    );
}

#[test]
fn insert_values_expression() {
    let mut t = derived(ForInsert, "c32", vec![field("default_column")]);
    t.fields[0].attr.insert = vec![info("COALESCE($i, 'default_value')")];
    let done = t.query().map_err(|e| e.message).unwrap();
    assert_eq!(
        text(&done),
        "INSERT INTO c32 AS \"self\" (\n\t\"default_column\"\n) VALUES (\n\tCOALESCE($1, 'default_value')\n)"
    );
}

#[test]
fn update_keys_and_values() {
    let t = derived(ForUpdate, "c13", vec![field("value_a"), field("value_b"), key("id1"), key("id2")]);
    assert!(t.init().is_ok());
    let done = t.query(&Returns::Nothing).map_err(|e| e.message).unwrap();
    assert_eq!(
        text(&done),
        "UPDATE c13 AS \"self\"\nSET\n\t\"value_a\" = $1,\n\t\"value_b\" = $2\nWHERE\n\t\"id1\" = $3 AND\n\t\"id2\" = $4"
    );
    assert_eq!(done.args, vec![0, 1, 2, 3]);
}

#[test]
fn update_expressions() {
    let mut t = derived(ForUpdate, "c32", vec![field("increment_amount"), key("equals_self")]);
    t.fields[0].attr.update = vec![info("counter = counter + $i")];
    t.attr.filter = vec![info("$equals_self = $table.id")];
    let done = t.query(&Returns::Nothing).map_err(|e| e.message).unwrap();
    assert_eq!(
        text(&done),
        "UPDATE c32 AS \"self\"\nSET\n\tcounter = counter + $1\nWHERE\n\t($2 = self.id) AND\n\t\"equals_self\" = $2"
    );
    assert_eq!(done.args, vec![0, 1]);
}

#[test]
fn update_keyless_drops_where() {
    let mut t = derived(ForUpdate, "all", vec![field("value")]);
    t.attr.keyless = Some(span());
    assert!(t.init().is_ok());
    let done = t.query(&Returns::Nothing).map_err(|e| e.message).unwrap();
    assert_eq!(text(&done), "UPDATE all AS \"self\"\nSET\n\t\"value\" = $1");
}

#[test]
fn update_without_key_fails_init() {
    let t = derived(ForUpdate, "t", vec![field("value")]);
    let err = t.init().err().unwrap();
    assert_eq!(err.fault, Fault::Incomplete);
}

#[test]
fn dynamic_query_builds_steps() {
    let mut t = derived(ForUpdate, "dyn", vec![field("value"), key("id")]);
    t.attr.dynamic = Some(span());
    t.fields[0].attr.optional = Some(Info { span: span(), data: None });
    assert!(t.init().is_ok());
    let done = t.query(&Returns::Nothing).map_err(|e| e.message).unwrap();
    assert!(done.query.is_none());
    assert!(done.steps.is_some());
    assert!(done.optional);
    assert_eq!(
        done.check.clone().unwrap(),
        "UPDATE dyn AS \"self\"\nSET\n\t\"value\" = $1\nWHERE\n\t\"id\" = $2"
    );
    assert_eq!(done.binds, vec![0, 1]);
}

#[test]
fn unchecked_query_has_no_check() {
    let mut t = derived(ForDelete, "u", vec![field("id")]);
    t.attr.unchecked = Some(span());
    let done = t.query().map_err(|e| e.message).unwrap();
    assert!(done.check.is_none());
    assert_eq!(text(&done), "DELETE FROM u AS \"self\"\nWHERE\n\t\"id\" = $1");
}

#[test]
fn init_faults() {
    let mut t = derived(ForDelete, "d", vec![field("id")]);
    t.fields[0].attr.skip = Some(span());
    t.fields[0].attr.filter = vec![info("x")];
    assert_eq!(t.init().err().unwrap().fault, Fault::Conflicting);

    let mut t = derived(ForDelete, "d", vec![field("id")]);
    t.attr.dynamic = Some(span());
    assert_eq!(t.init().err().unwrap().fault, Fault::Unused);

    let mut t = derived(ForDelete, "d", vec![field("id")]);
    t.fields[0].attr.optional = Some(Info { span: span(), data: Some(true) });
    assert_eq!(t.init().err().unwrap().fault, Fault::Unused);

    let t = derived(ForInsert, "i", vec![]);
    assert_eq!(t.init().err().unwrap().fault, Fault::Incomplete);
}

#[test]
fn dynamic_steps_in_order() {
    let mut t = derived(ForUpdate, "dyn", vec![field("value"), key("id")]);
    t.attr.dynamic = Some(span());
    t.fields[0].attr.optional = Some(Info { span: span(), data: None });
    let done = t.query(&Returns::Nothing).map_err(|e| e.message).unwrap();
    let steps = done.steps.unwrap();
    assert_eq!(steps.len(), 5);
    assert!(matches!(&steps[0], Step::Push(s) if s == "UPDATE dyn AS \"self\"\nSET\n"));
    match &steps[1] {
        Step::Present(0, body) => {
            assert_eq!(body.len(), 3);
            assert!(matches!(&body[0], Step::Push(s) if s == "\t\"value\" = "));
            assert!(matches!(&body[1], Step::Write(_, names) if names.len() == 1 && names[0].1 == 0));
            assert!(matches!(&body[2], Step::Push(s) if s == ",\n"));
        }
        _ => panic!("expected the optional field's steps"),
    }
    assert!(matches!(&steps[2], Step::Cut(list, true) if list.len() == 1 && list[0] == ",\n"));
    assert!(matches!(&steps[3], Step::Push(s) if s == "\nWHERE\n\t\"id\" = "));
    assert!(matches!(&steps[4], Step::Write(_, names) if names.len() == 1 && names[0].1 == 1));
}

#[test]
fn init_messages() {
    let t = derived(ForUpdate, "u", vec![key("id")]);
    let err = t.init().err().unwrap();
    assert_eq!(err.fault, Fault::Incomplete);
    assert_eq!(err.message, "incomplete query: missing update value");

    let t = derived(ForUpdate, "u", vec![field("value")]);
    let err = t.init().err().unwrap();
    assert_eq!(err.fault, Fault::Incomplete);
    assert!(err.message.starts_with("incomplete query: missing update key"));

    let mut t = derived(ForUpdate, "u", vec![field("value"), key("id")]);
    t.fields[0].attr.skip = Some(span());
    t.fields[0].attr.key = Some(span());
    assert_eq!(t.init().err().unwrap().message, "conflicting attributes: #[sqly(skip, key)]");

    let t = derived(ForDelete, "d", vec![]);
    assert!(t.init().err().unwrap().message.starts_with("incomplete query: missing delete key"));

    let t = derived(ForInsert, "i", vec![]);
    assert_eq!(t.init().err().unwrap().message, "incomplete query: missing insert value");

    let mut t = derived(ForDelete, "d", vec![field("id")]);
    t.attr.dynamic = Some(span());
    assert!(t.init().err().unwrap().message.starts_with("unused attribute: queries do not need to be generated at runtime"));
}

#[test]
fn delete_quotes_columns_only() {
    let t = derived(ForDelete, "c16", vec![field("one"), field("two")]);
    let done = t.query().map_err(|e| e.message).unwrap();
    assert_eq!(text(&done), "DELETE FROM c16 AS \"self\"\nWHERE\n\t\"one\" = $1 AND\n\t\"two\" = $2");
    assert_eq!(done.args, vec![0, 1]);
}

#[test]
fn insert_without_fields_is_incomplete() {
    let mut t = derived(ForInsert, "i", vec![field("a")]);
    t.fields[0].attr.skip = Some(span());
    let err = t.query().err().unwrap();
    assert_eq!(err.fault, Fault::Incomplete);
    assert_eq!(err.message, "incomplete query: missing insert column");
}

#[test]
fn update_without_values_is_incomplete() {
    let t = derived(ForUpdate, "u", vec![key("id")]);
    let err = t.query(&Returns::Nothing).err().unwrap();
    assert_eq!(err.fault, Fault::Incomplete);
    assert_eq!(err.message, "incomplete query: missing update column");
}

#[test]
fn query_reports_placeholder_message() {
    let mut t = derived(ForDelete, "items", vec![field("id")]);
    t.fields[0].attr.filter = vec![info("$nothing = 1")];
    let err = t.query().err().unwrap();
    assert_eq!(err.fault, Fault::Unknown);
    assert!(err.message.starts_with("unknown parameter: nothing\n known parameters: "));
    assert!(err.message.contains("column"));
}
