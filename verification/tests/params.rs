use sqly::escape::Escape;
use sqly::error::Error;
use sqly::params::{Params, Value};
use sqly::occur::{absent, repeated, Card, Occurrence};

fn result(src: &str) -> Result<String, Error> {
    let mut params = Params::default();
    params.put("one", Value::text("1"));
    params.put("two", Value::text("2"));
    params.put("mod", Value::text("mod"));
    params.put("SELF", Value::text("self"));
    params.put("inner", Value::text("LEFT"));
    params.put("INNER", Value::text("INNER"));
    params.put("table", Value::text("elbat"));
    params.put("other", Value::text("rehto"));
    let mut dst = String::new();
    let span = proc_macro2::Span::call_site();
    params.apply(&mut dst, src, span)?;
    Ok(dst)
}

fn replaced(src: &str, dst: &str) {
    let res = result(src).map_err(|_| ());
    assert_eq!(res, Ok(dst.to_string()));
}

fn errored(err: &str, src: &str) {
    let res = result(src).map_err(|e| e.message).map_err(|msg| {
        msg.find(err).map_or(msg, |_| err.to_string())
    });
    assert_eq!(res, Err(err.to_string()));
}

fn escaped(src: &str, dst: &str) {
    let mut esc = Escape(String::new());
    esc.write_str(src);
    let res = esc.into_inner();
    assert_eq!(res, dst);
}

#[test]
fn params_empty() {
    replaced("", "");
    escaped("", "");
}

#[test]
fn params_copy() {
    replaced("copy", "copy");
    escaped("copy", "copy");
}

#[test]
fn replace() {
    replaced("$one", "1");
    replaced("$two $one", "2 1");
    replaced("$two${ one }$two", "212");
    replaced("${one}$two${one}", "121");
    replaced("r#${r#table}#", "r#elbat#");
    replaced("{$r#other#}", "{rehto#}");
    replaced("{${SELF}}", "{self}");
    replaced("${ r#mod }", "mod");
    replaced("$r#mod", "mod");
}

#[test]
fn escape() {
    replaced("$$", "$");
    replaced("$$$$r#", "$$r#");
    replaced("$$table", "$table");
    replaced("$$$table$$", "$elbat$");
    replaced("$one$$one$one", "1$one1");
    replaced("$${ table }", "${ table }");
    replaced("$${ $table }", "${ elbat }");
    replaced("$${ r#$$ ", "${ r#$ ");
    replaced("$${", "${");
}

#[test]
fn statement() {
    replaced(
        "$INNER JOIN other AS $other ON $other.id = $table.other_id"
    , "INNER JOIN other AS rehto ON rehto.id = elbat.other_id");
    replaced(
        r#"$inner JOIN other AS "${other}" ON $other.id="$table".other_id"#
    , r#"LEFT JOIN other AS "rehto" ON rehto.id="elbat".other_id"#);
    replaced(
        "$inner JOIN other_a AS ${other}_a ON ${other}_a.id = $table.other_a_id\n\
        $inner JOIN other_b AS ${other}_b ON ${other}_b.id = $table.other_b_id\n\
        $INNER JOIN other AS $other ON\n\
            $other.id_a = ${other}_a.id OR\n\
            $other.id_b = ${other}_b.id"
    , "LEFT JOIN other_a AS rehto_a ON rehto_a.id = elbat.other_a_id\n\
        LEFT JOIN other_b AS rehto_b ON rehto_b.id = elbat.other_b_id\n\
        INNER JOIN other AS rehto ON\n\
            rehto.id_a = rehto_a.id OR\n\
            rehto.id_b = rehto_b.id"
    );
}

#[test]
fn missing() {
    let err = "missing";
    errored(err, "$");
    errored(err, "$ $");
    errored(err, "$ {");
    errored(err, "$$$");
    errored(err, "$${$}");
    errored(err, "$one$");
    errored(err, "${   }");
    errored(err, "r#${}");
    errored(err, "$ r#");
}

#[test]
fn unmatched() {
    let err = "unmatched";
    errored(err, "${");
    errored(err, "${$");
    errored(err, "${${");
    errored(err, "$$${");
    errored(err, "$${}${");
    errored(err, "$one${");
    errored(err, "${$one");
    errored(err, "${r#{r");
    errored(err, "${r#");
}

#[test]
fn invalid() {
    let err = "invalid";
    errored(err, "$_");
    errored(err, "$1");
    errored(err, "$mod");
    errored(err, "$r#self");
    errored(err, "${ $one }");
    errored(err, "${two one}");
    errored(err, "$r#{r}");
    errored(err, "${r#}");
    errored(err, "$r#");
}

#[test]
fn unknown() {
    let err = "unknown";
    errored(err, "$a");
    errored(err, "$a1");
    errored(err, "$_one");
    errored(err, "$two_");
    errored(err, "${ r#b }");
    errored(err, "${ r#_2 }");
    errored(err, "$Table");
    errored(err, "$elbat");
    errored(err, "${__}");
}

#[test]
fn unknown_lists_known_parameters() {
    let msg = result("$a").err().unwrap().message;
    assert!(msg.contains("unknown parameter: a\n known parameters: INNER, SELF, inner, mod, one, other, table, two"));
    let msg = result("${ b }").err().unwrap().message;
    assert!(msg.starts_with("unknown parameter:  b \n"));
    assert!(msg.ends_with("help: use \"$${ b }\" to escape and resolve to the literal \"${ b }\""));
}

#[test]
fn non_ascii_names_taken_as_written() {
    let mut params = Params::default();
    params.put("é", Value::text("e"));
    let mut dst = String::new();
    params.apply(&mut dst, "$é ${ é }", proc_macro2::Span::call_site()).map_err(|e| e.message).unwrap();
    assert_eq!(dst, "e e");
}

#[test]
fn bind_follows_arguments() {
    let mut args: Result<usize, &str> = Ok(2);
    let mut a = sqly::dynamic::Bind::new(1);
    assert_eq!(a.bind(&mut args, |v: i32| { assert_eq!(v, 1); Ok(()) }), 3);
    assert_eq!(args, Ok(3));
    assert_eq!(a.bind(&mut args, |_: i32| -> Result<(), &str> { panic!("a bound value is not added again") }), 3);
    assert_eq!(args, Ok(3));
    let mut b = sqly::dynamic::Bind::new(2);
    assert_eq!(b.bind(&mut args, |_: i32| Err("bad")), 0);
    assert_eq!(args, Err("bad"));
    assert_eq!(b.index, Some(0));
    let mut c = sqly::dynamic::Bind::new(3);
    assert_eq!(c.bind(&mut args, |_: i32| -> Result<(), &str> { panic!("a failed list takes nothing") }), 0);
    assert_eq!(c.index, Some(0));
    assert_eq!(args, Err("bad"));
}

#[test]
fn left() {
    escaped("{", "{{");
    escaped("{{", "{{{{");
    escaped(" { ", " {{ ");
    escaped("{  {", "{{  {{");
    escaped("  { {{ ", "  {{ {{{{ ");
}

#[test]
fn right() {
    escaped("}", "}}");
    escaped("}}", "}}}}");
    escaped(" } ", " }} ");
    escaped("}  }", "}}  }}");
    escaped("  } }} ", "  }} }}}} ");
}

#[test]
fn both() {
    escaped("{}", "{{}}");
    escaped("}{", "}}{{");
    escaped(" { } ", " {{ }} ");
    escaped(" } { ", " }} {{ ");
    escaped("}{}}{{}{", "}}{{}}}}{{{{}}{{");
}

#[test]
fn bind_once() {
    let mut b = sqly::dynamic::Bind::new(&5);
    assert!(!b.is_bound());
    assert_eq!(b.bound(3), 3);
    assert!(b.is_bound());
    assert_eq!(b.bound(7), 3);
    assert_eq!(b.index, Some(3));
    assert_eq!(*b.value, 5);
}

#[test]
fn attribute_occurrences() {
    let cards = [Card::One, Card::Opt, Card::Many { list: true }, Card::Many { list: false }];
    let o = |name: usize, empty: bool| Occurrence { name, empty };
    assert_eq!(repeated(&cards, &[o(0, false), o(1, true), o(2, false), o(2, false), o(3, true), o(3, true)]), None);
    assert_eq!(repeated(&cards, &[o(1, true), o(0, false), o(1, true)]), Some(2));
    assert_eq!(repeated(&cards, &[o(0, false), o(0, false)]), Some(1));
    assert_eq!(repeated(&cards, &[o(2, true), o(2, false)]), Some(1));
    assert_eq!(repeated(&cards, &[o(2, false), o(2, true)]), Some(1));
    assert_eq!(absent(&cards, &[o(1, true)]), Some(0));
    assert_eq!(absent(&cards, &[o(0, false)]), None);
}

#[test]
fn attribute_names_looked_up() {
    let names = vec!["table".to_string(), "rename_all".to_string(), "table".to_string()];
    assert_eq!(sqly::occur::position(&names, "table"), Some(0));
    assert_eq!(sqly::occur::position(&names, "rename_all"), Some(1));
    assert_eq!(sqly::occur::position(&names, "tables"), None);
}

#[test]
fn resolved_identifier_is_placed() {
    let mut params = Params::default();
    params.put("one", Value::text("1"));
    let span = proc_macro2::Span::call_site();
    let mut dst = String::new();
    params.resolved(&mut dst, false, &"one".to_string(), Some("one".to_string()), span).map_err(|e| e.message).unwrap();
    assert_eq!(dst, "1");
    let err = params.resolved(&mut dst, true, &" 1x ".to_string(), None, span).err().unwrap();
    assert!(err.message.starts_with("invalid identifier: \"${ 1x }\""));
    let err = params.resolved(&mut dst, false, &"two".to_string(), Some("two".to_string()), span).err().unwrap();
    assert!(err.message.starts_with("unknown parameter: two\n known parameters: one"));
    assert_eq!(dst, "1");
}
