use proc_macro2::Span;
use sqly::construct::{Code, Column, Construct, Foreign, Nullable, Resolved};
use sqly::error::Fault;
use sqly::attrs::{forwarded, preferred, Types};
use sqly::form::{Kind, Source};
use sqly::local::Local;
use sqly::params::Value;
use sqly::rules::Info;
use sqly::select::{selector, Returns, Scalar, Target};
use sqly::table::{Named, QueryField, QueryFieldAttr, QueryTable, QueryTableAttr, Returning};
use sqly::types::{Derived, Field, FieldAttr, ForSelect, ForUpdate, TableAttr};

fn span() -> Span {
    Span::call_site()
}

fn info(s: &str) -> Info<String> {
    Info { span: span(), data: s.to_string() }
}

fn qattr(table: &str) -> QueryTableAttr {
    QueryTableAttr {
        table: table.to_string(),
        rename: None,
        from_row: Some(span()),
        from_flat: None,
        try_from_flat: None,
        flat_row: None,
        flat: None,
        delete: None,
        insert: None,
        select: None,
        update: None,
        flat_derive: vec![],
        query_derive: vec![],
        delete_derive: vec![],
        insert_derive: vec![],
        select_derive: vec![],
        update_derive: vec![],
        flat_visibility: None,
        query_visibility: None,
        delete_visibility: None,
        insert_visibility: None,
        select_visibility: None,
        update_visibility: None,
        filter: vec![],
        delete_filter: vec![],
        select_filter: vec![],
        update_filter: vec![],
        dynamic: None,
        optional: None,
        delete_optional: None,
        insert_optional: None,
        select_optional: None,
        update_optional: None,
        serde_double_option: None,
        returning: None,
        delete_returning: None,
        insert_returning: None,
        update_returning: None,
        unchecked: None,
        print: None,
        debug: None,
    }
}

fn fattr() -> QueryFieldAttr {
    QueryFieldAttr {
        column: None,
        rename: None,
        select: vec![],
        insert: vec![],
        update: vec![],
        filter: vec![],
        delete_filter: vec![],
        select_filter: vec![],
        update_filter: vec![],
        optional: None,
        delete_optional: None,
        insert_optional: None,
        select_optional: None,
        update_optional: None,
        value: None,
        infer: None,
        foreign: None,
        joins: vec![],
        target: None,
        named: None,
        typed: None,
        from: None,
        default: None,
        default_given: false,
        skip: None,
        key: None,
    }
}

fn qfield(name: &str) -> QueryField {
    QueryField { ident: name.to_string(), span: span(), option: false, path: None, attr: fattr() }
}

fn qkey(name: &str) -> QueryField {
    let mut f = qfield(name);
    f.attr.key = Some(Info { span: span(), data: vec![] });
    f
}

fn qforeign(name: &str, path: &str) -> QueryField {
    let mut f = qfield(name);
    f.attr.foreign = Some(span());
    f.path = Some(path.to_string());
    f
}

fn qtable(ident: &str, table: &str, fields: Vec<QueryField>) -> QueryTable {
    QueryTable { ident: ident.to_string(), fields, attr: qattr(table) }
}

fn plain<'c>(t: &'c QueryTable) -> Construct<'c> {
    let fields = t.fields.iter().map(|f| Column { unique: String::new(), table: t, field: f, code: Code::Query }).collect();
    Construct { table: t, fields, foreign: None, unique: String::new() }
}

fn sfield(name: &str) -> Field {
    Field {
        ident: name.to_string(),
        span: span(),
        option: false,
        attr: FieldAttr {
            column: None,
            rename: None,
            filter: vec![],
            insert: vec![],
            update: vec![],
            optional: None,
            value: None,
            infer: None,
            skip: None,
            key: None,
        },
    }
}

fn sattr(table: &str) -> TableAttr {
    TableAttr {
        table: table.to_string(),
        path: None,
        rename: None,
        dynamic: None,
        optional: None,
        keyless: None,
        filter: vec![],
        returning: None,
        unchecked: None,
    }
}

#[test]
fn selector_forms() {
    let mut q = String::new();
    selector(&mut q, &[], "self", "id", "id", "", Target::Function).unwrap();
    assert_eq!(q, "\t\"self\".\"id\",\n");
    let mut q = String::new();
    selector(&mut q, &[], "self", "id1", "id", "!: _", Target::Macro).unwrap();
    assert_eq!(q, "\t\"self\".\"id1\" AS \"id!: _\",\n");
    let mut q = String::new();
    selector(&mut q, &[], "self", "id", "id", "!: _", Target::Function).unwrap();
    assert_eq!(q, "\t\"self\".\"id\",\n");
    let list = info("upper($table.$column)");
    let mut q = String::new();
    selector(&mut q, &[&list], "self", "name", "name", "", Target::Function).unwrap();
    assert_eq!(q, "\tupper(self.name) AS \"name\",\n");
}

#[test]
fn table_query_lists_columns() {
    let mut t = qtable("C22Table", "c22", vec![qfield("value"), qfield("hidden")]);
    t.fields[1].attr.skip = Some(Info { span: span(), data: vec![] });
    assert_eq!(t.query(Target::Function).unwrap(), "SELECT\n\t\"self\".\"value\"\nFROM c22 AS \"self\"");
    assert_eq!(t.flats().unwrap(), vec![0]);
}

#[test]
fn select_with_filter() {
    let mut t = qtable("C23Table", "c23", vec![qfield("id"), qfield("value")]);
    t.fields[0].attr.column = Some(info("id1"));
    let c = plain(&t).contract();
    assert_eq!(c.unique, "self");
    assert_eq!(c.fields[0].unique, "id");
    let mut s = Derived { ident: "C23Select".to_string(), fields: vec![sfield("one"), sfield("id2")], attr: sattr("c23"), kind: ForSelect };
    s.attr.path = Some("C23Table".to_string());
    let done = s.query(&c).map_err(|e| e.message).unwrap();
    assert_eq!(
        done.query.clone().unwrap(),
        "SELECT\n\t\"self\".\"id1\" AS \"id\",\n\t\"self\".\"value\"\nFROM c23 AS \"self\"\nWHERE\n\t\"self\".\"one\" = $1 AND\n\t\"self\".\"id2\" = $2"
    );
    assert_eq!(
        done.check.clone().unwrap(),
        "SELECT\n\t\"self\".\"id1\" AS \"id!: _\",\n\t\"self\".\"value\" AS \"value!: _\"\nFROM c23 AS \"self\"\nWHERE\n\t\"self\".\"one\" = $1 AND\n\t\"self\".\"id2\" = $2"
    );
}

#[test]
fn join_query() {
    let books = qtable("Book", "books", vec![qkey("id"), qfield("title")]);
    let pages = qtable("Page", "pages", vec![qfield("id"), qforeign("book", "Book")]);
    let inner = Construct {
        table: &books,
        fields: books.fields.iter().map(|f| Column { unique: String::new(), table: &books, field: f, code: Code::Query }).collect(),
        foreign: Some(Foreign { path: "Book".to_string(), nullable: None }),
        unique: String::new(),
    };
    let outer = Construct {
        table: &pages,
        fields: vec![
            Column { unique: String::new(), table: &pages, field: &pages.fields[0], code: Code::Query },
            Column { unique: String::new(), table: &pages, field: &pages.fields[1], code: Code::Foreign(inner) },
        ],
        foreign: None,
        unique: String::new(),
    };
    let c = outer.contract();
    assert_eq!(c.unique, "self");
    assert_eq!(c.fields[0].unique, "self__id");
    match &c.fields[1].code {
        Code::Foreign(d) => {
            assert_eq!(d.unique, "book");
            assert_eq!(d.fields[1].unique, "book__title");
            assert!(matches!(d.correlate(&c.fields[1]), Ok(Resolved::Field(0))));
        }
        _ => panic!("not joined"),
    }
    assert_eq!(c.fields[1].column().unwrap(), "book_id");
    assert_eq!(
        c.query(Target::Function).unwrap(),
        "SELECT\n\t\"self\".\"id\" AS \"self__id\",\n\t\"book\".\"id\" AS \"book__id\",\n\t\"book\".\"title\" AS \"book__title\"\nFROM pages AS \"self\"\nINNER JOIN \"books\" AS \"book\" ON \"book\".\"id\" = \"self\".\"book_id\""
    );
    let params = c.params();
    let text = |v: &Value| match v { Value::Text(t) => t.clone(), Value::Cell(_) => String::new() };
    assert_eq!(params.get("book").map(text), Some("book".to_string()));
    assert_eq!(params.get("table").map(text), Some("self".to_string()));
    let mut steps = Vec::new();
    c.formed(None, Source::Field, &mut steps).unwrap();
    let kinds: Vec<Kind> = steps.iter().map(|s| s.kind).collect();
    assert!(kinds == vec![Kind::Plain, Kind::Joined, Kind::Plain, Kind::Plain]);
}

#[test]
fn join_without_key_is_missing_target() {
    let books = qtable("Book", "books", vec![qfield("id")]);
    let pages = qtable("Page", "pages", vec![qforeign("book", "Book")]);
    let inner = Construct {
        table: &books,
        fields: vec![Column { unique: String::new(), table: &books, field: &books.fields[0], code: Code::Query }],
        foreign: Some(Foreign { path: "Book".to_string(), nullable: Some(Nullable::Option) }),
        unique: String::new(),
    };
    let outer = Construct {
        table: &pages,
        fields: vec![Column { unique: String::new(), table: &pages, field: &pages.fields[0], code: Code::Foreign(inner) }],
        foreign: None,
        unique: String::new(),
    };
    let c = outer.contract();
    let err = c.query(Target::Function).err().unwrap();
    assert_eq!(err.fault, Fault::Missing);
    assert!(err.message.starts_with("missing target: no keys in Book"));
    let mut steps = Vec::new();
    c.formed(None, Source::Field, &mut steps).unwrap();
    assert!(steps[0].former.is_some());
    assert!(steps[1].kind == Kind::Break);
}

#[test]
fn join_with_string_target() {
    let books = qtable("Book", "books", vec![qkey("id")]);
    let mut pages = qtable("Page", "pages", vec![qforeign("book", "Book")]);
    pages.fields[0].attr.target = Some(Info { span: span(), data: Named::String("isbn".to_string()) });
    let inner = Construct {
        table: &books,
        fields: vec![Column { unique: String::new(), table: &books, field: &books.fields[0], code: Code::Query }],
        foreign: Some(Foreign { path: "Book".to_string(), nullable: None }),
        unique: String::new(),
    };
    let outer = Construct {
        table: &pages,
        fields: vec![Column { unique: String::new(), table: &pages, field: &pages.fields[0], code: Code::Foreign(inner) }],
        foreign: None,
        unique: String::new(),
    };
    let c = outer.contract();
    assert_eq!(c.fields[0].renamed().unwrap(), "book_isbn");
}

#[test]
fn table_init_faults() {
    let mut t = qtable("T", "t", vec![qfield("a")]);
    t.attr.delete_filter = vec![info("x")];
    let err = t.init().err().unwrap();
    assert_eq!(err.fault, Fault::Unused);
    assert_eq!(err.message, "unused attribute: requires #[sqly(delete)]");

    let mut t = qtable("T", "t", vec![qfield("a")]);
    t.attr.delete = Some(Info { span: span(), data: None });
    t.fields[0].attr.key = Some(Info { span: span(), data: vec![Info { span: span(), data: sqly::attrs::Keys::Select }] });
    let err = t.init().err().unwrap();
    assert_eq!(err.fault, Fault::Unused);
    assert_eq!(err.message, "unused value: requires #[sqly(select)] on struct");

    let mut t = qtable("T", "t", vec![qfield("a")]);
    t.attr.select = Some(Info { span: span(), data: None });
    t.fields[0].attr.key = Some(Info { span: span(), data: vec![
        Info { span: span(), data: sqly::attrs::Keys::Select },
        Info { span: span(), data: sqly::attrs::Keys::Select },
    ] });
    let err = t.init().err().unwrap();
    assert_eq!(err.fault, Fault::Duplicate);
    assert_eq!(err.message, "duplicate value: select");

    let mut t = qtable("T", "t", vec![qfield("a")]);
    t.fields[0].attr.target = Some(Info { span: span(), data: Named::Ident("x".to_string()) });
    let err = t.init().err().unwrap();
    assert_eq!(err.fault, Fault::Unused);
    assert_eq!(err.message, "unused attribute: requires #[sqly(foreign)]");

    let mut t = qtable("T", "t", vec![qfield("a")]);
    t.fields[0].attr.foreign = Some(span());
    assert_eq!(t.init().err().unwrap().fault, Fault::Invalid);

    let mut t = qtable("T", "t", vec![qkey("a")]);
    t.attr.returning = Some(Info { span: span(), data: Some(Returning { table: Some("Self".to_string()), fields: vec![] }) });
    let t = t.init().map_err(|e| e.message).unwrap();
    let ret = t.attr.returning.unwrap().data.unwrap();
    assert_eq!(ret.table, Some("T".to_string()));
}

#[test]
fn update_returning_fields() {
    let books = qtable("Book", "books", vec![qkey("id"), qfield("title")]);
    let mut u = Derived { ident: "U".to_string(), fields: vec![sfield("title"), sfield("id")], attr: sattr("books"), kind: ForUpdate };
    u.fields[1].attr.key = Some(span());
    u.attr.path = Some("Book".to_string());
    u.attr.returning = Some(Info { span: span(), data: Some(Returning { table: None, fields: vec!["id".to_string()] }) });
    let r = u.returnable();
    assert_eq!(r.companion(), Some("Book".to_string()));
    let ret = r.resolve(Some(&books)).map_err(|e| e.message).unwrap();
    assert!(matches!(ret, Returns::Scalar(Scalar::Table(_, 1))));
    assert_eq!(ret.returned(Target::Function).unwrap(), "\nRETURNING\n\t\"self\".\"id\"");
    let done = u.query(&ret).map_err(|e| e.message).unwrap();
    assert_eq!(
        done.query.unwrap(),
        "UPDATE books AS \"self\"\nSET\n\t\"title\" = $1\nWHERE\n\t\"id\" = $2\nRETURNING\n\t\"self\".\"id\""
    );
    let all: Returns<ForUpdate> = Returns::Table("Book".to_string(), &books);
    assert_eq!(all.returned(Target::Function).unwrap(), "\nRETURNING\n\t\"self\".\"id\",\n\t\"self\".\"title\"");
}

#[test]
fn returning_unknown_field() {
    let books = qtable("Book", "books", vec![qkey("id")]);
    let mut u = Derived { ident: "U".to_string(), fields: vec![sfield("id")], attr: sattr("books"), kind: ForUpdate };
    u.attr.path = Some("Book".to_string());
    u.attr.returning = Some(Info { span: span(), data: Some(Returning { table: Some("Book".to_string()), fields: vec!["nope".to_string()] }) });
    let r = u.returnable();
    let err = r.resolve(Some(&books)).err().unwrap();
    assert_eq!(err.fault, Fault::Unknown);
}

#[test]
fn construct_from_local() {
    let books = qtable("Book", "books", vec![qkey("id"), qfield("title")]);
    let pages = qtable("Page", "pages", vec![qfield("id"), qforeign("book", "Book")]);
    let mut local = Local { tables: vec![] };
    assert_eq!(local.wanted(&pages), Some("Book".to_string()));
    local.tables.push(books);
    assert_eq!(local.wanted(&pages), None);
    assert!(local.has_table(&"Book".to_string()));
    assert!(!local.has_table(&"Page".to_string()));
    let c = pages.construct(&local).unwrap();
    assert_eq!(c.unique, "self");
    assert_eq!(c.fields[0].unique, "self__id");
    match &c.fields[1].code {
        Code::Foreign(d) => {
            assert_eq!(d.unique, "book");
            assert_eq!(d.table.ident, "Book");
            assert_eq!(d.fields[1].unique, "book__title");
            assert_eq!(d.foreign.as_ref().map(|f| f.path.clone()), Some("Book".to_string()));
        }
        _ => panic!("not joined"),
    }
    assert_eq!(
        c.query(Target::Function).unwrap(),
        "SELECT\n\t\"self\".\"id\" AS \"self__id\",\n\t\"book\".\"id\" AS \"book__id\",\n\t\"book\".\"title\" AS \"book__title\"\nFROM pages AS \"self\"\nINNER JOIN \"books\" AS \"book\" ON \"book\".\"id\" = \"self\".\"book_id\""
    );
}

#[test]
fn construct_missing_or_cyclic() {
    let pages = qtable("Page", "pages", vec![qforeign("book", "Book")]);
    let empty = Local { tables: vec![] };
    assert_eq!(pages.construct(&empty).err().unwrap().fault, Fault::Unresolved);
    let a = qtable("A", "a", vec![qforeign("b", "B")]);
    let b = qtable("B", "b", vec![qforeign("a", "A")]);
    let cyclic = Local { tables: vec![a, b] };
    assert_eq!(cyclic.wanted(&cyclic.tables[0]), None);
    assert_eq!(cyclic.tables[0].construct(&cyclic).err().unwrap().fault, Fault::Unresolved);
    let mut bad = qforeign("x", "X");
    bad.path = None;
    let invalid = qtable("Bad", "bad", vec![bad]);
    assert_eq!(invalid.construct(&empty).err().unwrap().fault, Fault::Invalid);
}

#[test]
fn generated_struct_dynamic() {
    let mut t = qtable("T", "t", vec![qkey("id"), qfield("name")]);
    assert!(!t.dynamic_for(Types::Update));
    t.attr.dynamic = Some(span());
    assert!(!t.dynamic_for(Types::Update));
    t.fields[1].attr.optional = Some(Info { span: span(), data: None });
    assert!(t.dynamic_for(Types::Update));
    assert!(t.dynamic_for(Types::Insert));
    assert!(!t.dynamic_for(Types::Delete));
    t.fields[1].attr.update_optional = Some(Info { span: span(), data: Some(false) });
    assert!(!t.dynamic_for(Types::Update));
}

#[test]
fn joined_name_uses_target_ident() {
    let mut books = qtable("Book", "books", vec![qkey("id"), qfield("title")]);
    books.fields[0].attr.column = Some(info("book_pk"));
    let pages = qtable("Page", "pages", vec![qforeign("book", "Book")]);
    let inner = Construct {
        table: &books,
        fields: books.fields.iter().map(|f| Column { unique: String::new(), table: &books, field: f, code: Code::Query }).collect(),
        foreign: Some(Foreign { path: "Book".to_string(), nullable: None }),
        unique: String::new(),
    };
    let outer = Construct {
        table: &pages,
        fields: vec![Column { unique: String::new(), table: &pages, field: &pages.fields[0], code: Code::Foreign(inner) }],
        foreign: None,
        unique: String::new(),
    };
    let c = outer.contract();
    assert_eq!(c.fields[0].renamed().unwrap(), "book_id");
}

#[test]
fn join_with_two_keys_is_ambiguous() {
    let books = qtable("Book", "books", vec![qkey("id"), qkey("isbn")]);
    let pages = qtable("Page", "pages", vec![qforeign("book", "Book")]);
    let inner = Construct {
        table: &books,
        fields: books.fields.iter().map(|f| Column { unique: String::new(), table: &books, field: f, code: Code::Query }).collect(),
        foreign: Some(Foreign { path: "Book".to_string(), nullable: None }),
        unique: String::new(),
    };
    let outer = Construct {
        table: &pages,
        fields: vec![Column { unique: String::new(), table: &pages, field: &pages.fields[0], code: Code::Foreign(inner) }],
        foreign: None,
        unique: String::new(),
    };
    let c = outer.contract();
    let err = c.fields[0].renamed().err().unwrap();
    assert_eq!(err.fault, Fault::Ambiguous);
    assert!(err.message.starts_with("ambiguous target: multiple keys in Book"));
}

#[test]
fn flat_field_types() {
    let mut t = qtable("T", "t", vec![qfield("a"), qfield("b"), qfield("c")]);
    t.fields[1].attr.from = Some(span());
    t.fields[2].attr.default = Some(span());
    let v = t.flat_types().map_err(|e| e.message).unwrap();
    assert_eq!(v, vec![(0, false, false), (1, true, false), (2, false, true)]);
}

#[test]
fn left_join_of_nullable_fields_is_ambiguous() {
    let mut books = qtable("Book", "books", vec![qfield("title")]);
    books.fields[0].option = true;
    let pages = qtable("Page", "pages", vec![qfield("id"), qforeign("book", "Book")]);
    let inner = Construct {
        table: &books,
        fields: vec![Column { unique: String::new(), table: &books, field: &books.fields[0], code: Code::Query }],
        foreign: Some(Foreign { path: "Book".to_string(), nullable: Some(Nullable::Option) }),
        unique: String::new(),
    };
    let outer = Construct {
        table: &pages,
        fields: vec![
            Column { unique: String::new(), table: &pages, field: &pages.fields[0], code: Code::Query },
            Column { unique: String::new(), table: &pages, field: &pages.fields[1], code: Code::Foreign(inner) },
        ],
        foreign: None,
        unique: String::new(),
    };
    let mut steps = Vec::new();
    let err = outer.formed(None, Source::Column, &mut steps).err().unwrap();
    assert_eq!(err.fault, Fault::Ambiguous);
    assert_eq!(err.message, "ambiguous left join on Book: all fetched fields are nullable");
}

#[test]
fn try_from_flat_requires_flat() {
    let mut t = qtable("T", "t", vec![qfield("a")]);
    t.attr.try_from_flat = Some(span());
    let err = t.init().err().unwrap();
    assert_eq!(err.fault, Fault::Unused);
    assert_eq!(err.message, "unused attribute: requires #[sqly(flat)]");
}

#[test]
fn skipped_fields_take_their_default() {
    let mut t = qtable("T", "t", vec![qfield("a"), qfield("b"), qfield("c")]);
    let from_row = || Some(Info { span: span(), data: vec![Info { span: span(), data: sqly::attrs::Skips::FromRow }] });
    t.fields[1].attr.skip = from_row();
    t.fields[1].attr.default = Some(span());
    t.fields[1].attr.default_given = true;
    t.fields[2].attr.skip = from_row();
    t.fields[2].attr.default = Some(span());
    let c = Construct {
        table: &t,
        fields: t.fields.iter().map(|f| Column { unique: String::new(), table: &t, field: f, code: Code::Skip }).collect(),
        foreign: None,
        unique: String::new(),
    };
    let mut steps = Vec::new();
    c.formed(None, Source::Column, &mut steps).unwrap();
    let kinds: Vec<Kind> = steps.iter().map(|s| s.kind).collect();
    assert!(kinds == vec![Kind::Default, Kind::Given, Kind::Default]);
}

#[test]
fn flat_conversions() {
    let mut t = qtable("T", "t", vec![qfield("a")]);
    assert!(t.flat_conversion().is_none());
    t.attr.from_flat = Some(span());
    assert!(t.flat_conversion() == Some(sqly::select::Conversion::Infallible));
    t.attr.try_from_flat = Some(span());
    assert!(t.flat_conversion() == Some(sqly::select::Conversion::Fallible));
}

#[test]
fn forwarded_attributes() {
    assert_eq!(forwarded(Types::Delete, false), vec![("filter", "delete_filter", "filter"), ("returning", "delete_returning", "returning")]);
    assert_eq!(forwarded(Types::Select, false), vec![("filter", "select_filter", "filter")]);
    let f = forwarded(Types::Update, true);
    assert_eq!(f.len(), 6);
    assert_eq!(f[4], ("filter", "update_filter", "filter"));
    assert_eq!(f[5], ("update", "update", "update"));
    assert_eq!(preferred(vec![1], vec![2, 3]), vec![1]);
    assert_eq!(preferred(Vec::<i32>::new(), vec![2, 3]), vec![2, 3]);
}
