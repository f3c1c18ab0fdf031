use vstd::prelude::*;
use proc_macro2::Span;
use crate::attrs::{Types, Skips, Keys, spec_skip_type, spec_key_type, kind_name};
use crate::error::{Error, Fault};
use crate::rules::Info;
use crate::table::{QueryTable, QueryField, Returning, spany, first_span, first_of};
use crate::types::{static_fault, check_static, static_message};

verus! {

/// Whether a list attribute names a query type whose struct is not generated.
pub open spec fn unused_value(types: Seq<Types>, t: Option<Types>) -> bool {
    t matches Some(ty) && !types.contains(ty)
}

/// What a `key` or `skip` list gets wrong: a value whose struct is not generated,
/// else a value given twice.
pub open spec fn list_fault<T>(types: Seq<Types>, items: Seq<Info<T>>, conv: spec_fn(T) -> Option<Types>) -> Option<Fault> {
    if exists|i: int| 0 <= i < items.len() && unused_value(types, conv(#[trigger] items[i].data)) {
        Some(Fault::Unused)
    } else if exists|i: int, j: int| 0 <= i < j < items.len() && #[trigger] items[i].data == #[trigger] items[j].data {
        Some(Fault::Duplicate)
    } else {
        None
    }
}

/// The key value of a `key` list as a query type.
pub open spec fn key_conv() -> spec_fn(Keys) -> Option<Types> {
    |k: Keys| Some(spec_key_type(k))
}

/// The skip value of a `skip` list as a query type.
pub open spec fn skip_conv() -> spec_fn(Skips) -> Option<Types> {
    |s: Skips| spec_skip_type(s)
}

/// The first item from `from` on whose struct is not generated.
pub open spec fn first_unused<T>(types: Seq<Types>, items: Seq<Info<T>>, conv: spec_fn(T) -> Option<Types>, from: int) -> Option<int>
    decreases items.len() - from,
{
    if from < 0 || from >= items.len() {
        None
    } else if unused_value(types, conv(items[from].data)) {
        Some(from)
    } else {
        first_unused(types, items, conv, from + 1)
    }
}

/// The first item from `from` on that is given again later.
pub open spec fn first_duplicated<T>(items: Seq<Info<T>>, from: int) -> Option<int>
    decreases items.len() - from,
{
    if from < 0 || from >= items.len() {
        None
    } else if exists|j: int| from < j < items.len() && #[trigger] items[j].data == items[from].data {
        Some(from)
    } else {
        first_duplicated(items, from + 1)
    }
}

/// The message for what a `key` or `skip` list gets wrong (see `list_fault`),
/// with `word` the attribute name of a value.
pub open spec fn list_message<T>(types: Seq<Types>, items: Seq<Info<T>>, conv: spec_fn(T) -> Option<Types>, word: spec_fn(T) -> Seq<char>) -> Seq<char> {
    match first_unused(types, items, conv, 0) {
        Some(i) => "unused value: requires #[sqly("@ + word(items[i].data) + ")] on struct"@,
        None => match first_duplicated(items, 0) {
            Some(i) => "duplicate value: "@ + word(items[i].data),
            None => Seq::empty(),
        },
    }
}

/// The attribute name of a key value.
pub open spec fn key_words() -> spec_fn(Keys) -> Seq<char> {
    |k: Keys| key_word(k)
}

/// The attribute name of a skip value.
pub open spec fn skip_words() -> spec_fn(Skips) -> Seq<char> {
    |s: Skips| skip_word(s)
}

/// The first skip value from `from` on whose query type is also a key value.
pub open spec fn first_conflict(skips: Seq<Info<Skips>>, keys: Seq<Info<Keys>>, from: int) -> Option<int>
    decreases skips.len() - from,
{
    if from < 0 || from >= skips.len() {
        None
    } else if exists|b: int| 0 <= b < keys.len() && spec_skip_type(skips[from].data) == Some(spec_key_type(#[trigger] keys[b].data)) {
        Some(from)
    } else {
        first_conflict(skips, keys, from + 1)
    }
}

/// Replaces a returning table named `Self` by the struct's own name.
pub open spec fn rebound(ret: Option<Info<Option<Returning>>>, ident: String) -> Option<Info<Option<Returning>>> {
    match ret {
        Some(info) => match info.data {
            Some(r) => match r.table {
                Some(t) => if t@ == "Self"@ {
                    Some(Info { span: info.span, data: Some(Returning { table: Some(ident), fields: r.fields }) })
                } else {
                    ret
                },
                None => ret,
            },
            None => ret,
        },
        None => ret,
    }
}

/// Replaces a returning table named `Self` by the struct's own name.
fn rebind(ret: Option<Info<Option<Returning>>>, ident: &String) -> (r: Option<Info<Option<Returning>>>)
    ensures
        r == rebound(ret, *ident),
{
    match ret {
        Some(info) => match info.data {
            Some(r) => match r.table {
                Some(t) => if t == "Self".to_owned() {
                    Some(Info { span: info.span, data: Some(Returning { table: Some(ident.clone()), fields: r.fields }) })
                } else {
                    Some(Info { span: info.span, data: Some(Returning { table: Some(t), fields: r.fields }) })
                },
                None => Some(Info { span: info.span, data: Some(Returning { table: None, fields: r.fields }) }),
            },
            None => Some(Info { span: info.span, data: None }),
        },
        None => None,
    }
}

/// Whether a field has an attribute of the given query type.
pub open spec fn field_present(field: QueryField, t: Types) -> bool {
    let b = field.attr;
    match t {
        Types::Delete => b.delete_filter@.len() > 0 || b.delete_optional is Some,
        Types::Insert => b.insert@.len() > 0 || b.insert_optional is Some,
        Types::Select => b.select_filter@.len() > 0 || b.select_optional is Some,
        Types::Update => b.update@.len() > 0 || b.update_filter@.len() > 0 || b.update_optional is Some,
    }
}

/// Where a field has an attribute of the given query type, the first one.
fn present_span(field: &QueryField, t: Types) -> (r: Option<Span>)
    ensures
        r is Some <==> field_present(*field, t),
{
    let b = &field.attr;
    let (value, filter, optional) = match t {
        Types::Delete => (None, first_span(&b.delete_filter), &b.delete_optional),
        Types::Insert => (first_span(&b.insert), None, &b.insert_optional),
        Types::Select => (None, first_span(&b.select_filter), &b.select_optional),
        Types::Update => (first_span(&b.update), first_span(&b.update_filter), &b.update_optional),
    };
    if value.is_some() {
        value
    } else if filter.is_some() {
        filter
    } else {
        match optional {
            Some(o) => Some(o.span),
            None => None,
        }
    }
}

impl QueryTable {
    /// Whether attributes of a query type are given while its struct is not generated.
    pub open spec fn type_unused(&self, t: Types) -> bool {
        let a = self.attr;
        match t {
            Types::Delete => a.delete is None && (a.delete_derive@.len() > 0 || a.delete_visibility is Some
                || a.delete_filter@.len() > 0 || a.delete_optional is Some || a.delete_returning is Some),
            Types::Insert => a.insert is None && (a.insert_derive@.len() > 0 || a.insert_visibility is Some
                || a.insert_optional is Some || a.insert_returning is Some),
            Types::Select => a.select is None && (a.select_derive@.len() > 0 || a.select_visibility is Some
                || a.select_filter@.len() > 0 || a.select_optional is Some),
            Types::Update => a.update is None && (a.update_derive@.len() > 0 || a.update_visibility is Some
                || a.update_filter@.len() > 0 || a.update_optional is Some || a.update_returning is Some),
        }
    }

    /// What a field's `key` and `skip` lists get wrong: each list as `list_fault`
    /// checks it, then `skip` for every query with `key`, or `skip` and `key` for the
    /// same query.
    pub open spec fn key_fault(&self, field: QueryField) -> Option<Fault> {
        let types = self.spec_types();
        let kf = match field.attr.key { Some(k) => list_fault(types, k.data@, key_conv()), None => None };
        let sf = match field.attr.skip { Some(s) => list_fault(types, s.data@, skip_conv()), None => None };
        if kf is Some {
            kf
        } else if sf is Some {
            sf
        } else {
            match (field.attr.key, field.attr.skip) {
                (Some(keys), Some(skips)) => if skips.data@.len() == 0 {
                    if keys.data@.len() == 0 { Some(Fault::Conflicting) } else { Some(Fault::Ambiguous) }
                } else if exists|i: int, j: int| 0 <= i < skips.data@.len() && 0 <= j < keys.data@.len()
                    && #[trigger] spec_skip_type(skips.data@[i].data) == Some(spec_key_type(#[trigger] keys.data@[j].data)) {
                    Some(Fault::Conflicting)
                } else {
                    None
                },
                _ => None,
            }
        }
    }

    /// Whether a field has an attribute of a query type whose struct is not
    /// generated or that does not hold the field, or `filter` without `key`.
    pub open spec fn field_unused(&self, field: QueryField) -> bool {
        (exists|t: Types| #[trigger] field_present(field, t) && (self.type_attr(t) is None || !self.spec_fielded(field, t)))
            || (field.attr.key is None && field.attr.filter@.len() > 0)
    }

    /// What a field's `foreign` gets wrong: a type that names no struct; `skip`
    /// from rows; `select`. Without `foreign`, `target` is unused.
    pub open spec fn foreign_fault(&self, field: QueryField) -> Option<Fault> {
        let b = field.attr;
        if b.foreign is Some {
            if field.path is None {
                Some(Fault::Invalid)
            } else if b.skip matches Some(skips) && (skips.data@.len() == 0
                || exists|i: int| 0 <= i < skips.data@.len() && #[trigger] skips.data@[i].data == Skips::FromRow) {
                Some(Fault::Conflicting)
            } else if b.select@.len() > 0 {
                Some(Fault::Conflicting)
            } else {
                None
            }
        } else if b.target is Some {
            Some(Fault::Unused)
        } else {
            None
        }
    }

    /// The message for what a field's `key` and `skip` lists get wrong (see `key_fault`).
    pub open spec fn key_message(&self, field: QueryField) -> Seq<char> {
        let types = self.spec_types();
        let kf = match field.attr.key { Some(k) => list_fault(types, k.data@, key_conv()), None => None };
        let sf = match field.attr.skip { Some(s) => list_fault(types, s.data@, skip_conv()), None => None };
        if kf is Some {
            list_message(types, field.attr.key->Some_0.data@, key_conv(), key_words())
        } else if sf is Some {
            list_message(types, field.attr.skip->Some_0.data@, skip_conv(), skip_words())
        } else {
            match (field.attr.key, field.attr.skip) {
                (Some(keys), Some(skips)) => if skips.data@.len() == 0 {
                    if keys.data@.len() == 0 {
                        "conflicting attributes: #[sqly(skip, key)]"@
                    } else {
                        "ambiguous attributes: #[sqly(skip, key = ...)]"@
                    }
                } else {
                    match first_conflict(skips.data@, keys.data@, 0) {
                        Some(i) => {
                            let t = kind_name(spec_skip_type(skips.data@[i].data)->Some_0);
                            "conflicting attributes: #[sqly(skip = "@ + t + ", key = "@ + t + ")]"@
                        },
                        None => Seq::empty(),
                    }
                },
                _ => Seq::empty(),
            }
        }
    }

    /// The message for field attributes of the query types from position `k` on
    /// (in the order delete, insert, select, update) that are not used, or else
    /// for `filter` without `key`.
    pub open spec fn used_message(&self, field: QueryField, k: int) -> Seq<char>
        decreases 4 - k,
    {
        if k < 0 || k >= 4 {
            "unused attribute: requires #[sqly(key)]"@
        } else {
            let t = seq![Types::Delete, Types::Insert, Types::Select, Types::Update][k];
            if field_present(field, t) && self.type_attr(t) is None {
                "unused attribute: requires #[sqly("@ + kind_name(t) + ")] on struct"@
            } else if field_present(field, t) && !self.spec_fielded(field, t) {
                "unused attribute: field not included in #[sqly("@ + kind_name(t) + ")]"@
            } else {
                self.used_message(field, k + 1)
            }
        }
    }

    /// The message for what a field's `foreign` gets wrong (see `foreign_fault`).
    pub open spec fn foreign_message(&self, field: QueryField) -> Seq<char> {
        let b = field.attr;
        if b.foreign is Some {
            if field.path is None {
                "invalid type: expected path\nnote: expected due to #[sqly(foreign)] attribute"@
            } else if b.select@.len() > 0 && !(b.skip matches Some(skips) && (skips.data@.len() == 0
                || exists|i: int| 0 <= i < skips.data@.len() && #[trigger] skips.data@[i].data == Skips::FromRow)) {
                "conflicting attributes: #[sqly(foreign, select)]"@
            } else {
                "conflicting attributes: #[sqly(skip, foreign)]"@
            }
        } else {
            "unused attribute: requires #[sqly(foreign)]"@
        }
    }

    /// The message for the first fault among the fields from `from` on: a wrong
    /// `key` or `skip` list (`which` 0), unused attributes (`which` 1) or a wrong
    /// `foreign` (`which` 2).
    pub open spec fn first_message(&self, which: int, from: int) -> Seq<char>
        decreases self.fields@.len() - from,
    {
        if from < 0 || from >= self.fields@.len() {
            Seq::empty()
        } else {
            let f = self.fields@[from];
            let faulty = if which == 0 { self.key_fault(f) is Some } else if which == 1 {
                self.field_unused(f)
            } else {
                self.foreign_fault(f) is Some
            };
            if faulty {
                if which == 0 { self.key_message(f) } else if which == 1 { self.used_message(f, 0) } else { self.foreign_message(f) }
            } else {
                self.first_message(which, from + 1)
            }
        }
    }

    /// The first fault among the fields from `from` on.
    pub open spec fn first_fault(&self, which: int, from: int) -> Option<Fault>
        decreases self.fields@.len() - from,
    {
        if from < 0 || from >= self.fields@.len() {
            None
        } else {
            let f = self.fields@[from];
            let here = if which == 0 { self.key_fault(f) } else if which == 1 {
                if self.field_unused(f) { Some(Fault::Unused) } else { None }
            } else { self.foreign_fault(f) };
            if here is Some { here } else { self.first_fault(which, from + 1) }
        }
    }

    /// Whether some field is optional in a query whose struct is generated and holds it.
    pub open spec fn any_optional(&self) -> bool {
        exists|t: Types, i: int| 0 <= i < self.fields@.len() && self.type_attr(t) is Some
            && #[trigger] self.spec_fielded(self.fields@[i], t) && self.spec_optional(self.fields@[i], t) is Some
    }

    /// The message of the error that the table checks report; `None` where
    /// nothing is wrong.
    pub open spec fn spec_message(&self) -> Option<Seq<char>> {
        if self.type_unused(Types::Delete) {
            Some(type_message(Types::Delete))
        } else if self.type_unused(Types::Insert) {
            Some(type_message(Types::Insert))
        } else if self.type_unused(Types::Select) {
            Some(type_message(Types::Select))
        } else if self.type_unused(Types::Update) {
            Some(type_message(Types::Update))
        } else if self.attr.flat is None && (self.attr.from_flat is Some || self.attr.try_from_flat is Some || self.attr.flat_row is Some) {
            Some("unused attribute: requires #[sqly(flat)]"@)
        } else if self.first_fault(0, 0) is Some {
            Some(self.first_message(0, 0))
        } else if self.first_fault(1, 0) is Some {
            Some(self.first_message(1, 0))
        } else if self.first_fault(2, 0) is Some {
            Some(self.first_message(2, 0))
        } else if self.attr.serde_double_option is Some {
            Some("unused attribute: requires the serde feature"@)
        } else if (self.attr.dynamic is Some) != self.any_optional() {
            Some(static_message(self.attr.dynamic))
        } else {
            None
        }
    }

    /// What the table checks find wrong, in the order they run.
    pub open spec fn spec_fault(&self) -> Option<Fault> {
        if self.type_unused(Types::Delete) || self.type_unused(Types::Insert)
            || self.type_unused(Types::Select) || self.type_unused(Types::Update) {
            Some(Fault::Unused)
        } else if self.attr.flat is None && (self.attr.from_flat is Some || self.attr.try_from_flat is Some || self.attr.flat_row is Some) {
            Some(Fault::Unused)
        } else if self.first_fault(0, 0) is Some {
            self.first_fault(0, 0)
        } else if self.first_fault(1, 0) is Some {
            self.first_fault(1, 0)
        } else if self.first_fault(2, 0) is Some {
            self.first_fault(2, 0)
        } else if self.attr.serde_double_option is Some {
            Some(Fault::Unused)
        } else if (self.attr.dynamic is Some) != self.any_optional() {
            Some(Fault::Unused)
        } else {
            None
        }
    }
}


/// The message for attributes of a query type whose struct is not generated.
pub open spec fn type_message(t: Types) -> Seq<char> {
    "unused attribute: requires #[sqly("@ + kind_name(t) + ")]"@
}

/// Whether a list of query types holds `t`.
fn has_type(types: &Vec<Types>, t: Types) -> (b: bool)
    ensures
        b == types@.contains(t),
{
    let mut i: usize = 0;
    while i < types.len()
        invariant
            i <= types@.len(),
            forall|j: int| 0 <= j < i ==> types@[j] != t,
        decreases types@.len() - i,
    {
        if types[i] == t {
            return true;
        }
        i = i + 1;
    }
    false
}

/// The attribute name of a skip value.
pub open spec fn skip_word(s: Skips) -> Seq<char> {
    match s {
        Skips::Delete => "delete"@,
        Skips::Insert => "insert"@,
        Skips::Select => "select"@,
        Skips::Update => "update"@,
        Skips::FromRow => "from_row"@,
    }
}

/// The attribute name of a key value.
pub open spec fn key_word(k: Keys) -> Seq<char> {
    match k {
        Keys::Delete => "delete"@,
        Keys::Select => "select"@,
        Keys::Update => "update"@,
    }
}

/// The attribute name of a skip value.
fn skip_name(s: Skips) -> (r: &'static str)
    ensures
        r@ == skip_word(s),
{
    match s {
        Skips::Delete => "delete",
        Skips::Insert => "insert",
        Skips::Select => "select",
        Skips::Update => "update",
        Skips::FromRow => "from_row",
    }
}

/// The attribute name of a key value.
fn key_name(k: Keys) -> (r: &'static str)
    ensures
        r@ == key_word(k),
{
    match k {
        Keys::Delete => "delete",
        Keys::Select => "select",
        Keys::Update => "update",
    }
}

/// An error at `span` whose message is `head` followed by `name` and `tail`.
pub(crate) fn named_error(span: Span, fault: Fault, head: &str, name: &str, tail: &str) -> (e: Error)
    ensures
        e.span == span,
        e.fault == fault,
        e.message@ == head@ + name@ + tail@,
{
    let mut msg = String::new();
    crate::text::push_str(&mut msg, head);
    crate::text::push_str(&mut msg, name);
    crate::text::push_str(&mut msg, tail);
    Error::new(span, fault, msg)
}

/// Checks a `key` list: each value's struct is generated, and no value is given twice.
fn check_keys(types: &Vec<Types>, items: &Vec<Info<Keys>>) -> (r: Result<(), Error>)
    ensures
        r is Ok <==> list_fault(types@, items@, key_conv()) is None,
        r matches Err(e) ==> Some(e.fault) == list_fault(types@, items@, key_conv()),
        r matches Err(e) ==> e.message@ == list_message(types@, items@, key_conv(), key_words()),
{
    let mut i: usize = 0;
    while i < items.len()
        invariant
            i <= items@.len(),
            forall|j: int| 0 <= j < i ==> !unused_value(types@, key_conv()(#[trigger] items@[j].data)),
            first_unused(types@, items@, key_conv(), 0) == first_unused(types@, items@, key_conv(), i as int),
        decreases items@.len() - i,
    {
        let t = items[i].data.types();
        if !has_type(types, t) {
            assert(unused_value(types@, key_conv()(items@[i as int].data)));
            return Err(named_error(items[i].span, Fault::Unused, "unused value: requires #[sqly(", key_name(items[i].data), ")] on struct"));
        }
        i = i + 1;
    }
    let mut i: usize = 0;
    while i < items.len()
        invariant
            i <= items@.len(),
            forall|a: int| 0 <= a < items@.len() ==> !unused_value(types@, key_conv()(#[trigger] items@[a].data)),
            forall|a: int, b: int| 0 <= a < i && a < b < items@.len() ==> #[trigger] items@[a].data != #[trigger] items@[b].data,
            first_unused(types@, items@, key_conv(), 0) is None,
            first_duplicated(items@, 0) == first_duplicated(items@, i as int),
        decreases items@.len() - i,
    {
        let mut j: usize = i + 1;
        while j < items.len()
            invariant
                i < items@.len(),
                i + 1 <= j <= items@.len(),
                forall|a: int| 0 <= a < items@.len() ==> !unused_value(types@, key_conv()(#[trigger] items@[a].data)),
                forall|b: int| i < b < j ==> items@[i as int].data != #[trigger] items@[b].data,
                first_unused(types@, items@, key_conv(), 0) is None,
                first_duplicated(items@, 0) == first_duplicated(items@, i as int),
            decreases items@.len() - j,
        {
            if items[j].data == items[i].data {
                assert(items@[i as int].data == items@[j as int].data);
                proof {
                    reveal_strlit("");
                    assert(first_duplicated(items@, i as int) == Some(i as int));
                }
                return Err(named_error(items[j].span, Fault::Duplicate, "duplicate value: ", key_name(items[j].data), ""));
            }
            j = j + 1;
        }
        i = i + 1;
    }
    Ok(())
}

/// Checks a `skip` list: each value's struct is generated, and no value is given twice.
fn check_skips(types: &Vec<Types>, items: &Vec<Info<Skips>>) -> (r: Result<(), Error>)
    ensures
        r is Ok <==> list_fault(types@, items@, skip_conv()) is None,
        r matches Err(e) ==> Some(e.fault) == list_fault(types@, items@, skip_conv()),
        r matches Err(e) ==> e.message@ == list_message(types@, items@, skip_conv(), skip_words()),
{
    let mut i: usize = 0;
    while i < items.len()
        invariant
            i <= items@.len(),
            forall|j: int| 0 <= j < i ==> !unused_value(types@, skip_conv()(#[trigger] items@[j].data)),
            first_unused(types@, items@, skip_conv(), 0) == first_unused(types@, items@, skip_conv(), i as int),
        decreases items@.len() - i,
    {
        match Types::from_skips(items[i].data) {
            Some(t) => {
                if !has_type(types, t) {
                    assert(unused_value(types@, skip_conv()(items@[i as int].data)));
                    return Err(named_error(items[i].span, Fault::Unused, "unused value: requires #[sqly(", skip_name(items[i].data), ")] on struct"));
                }
            }
            None => {}
        }
        i = i + 1;
    }
    let mut i: usize = 0;
    while i < items.len()
        invariant
            i <= items@.len(),
            forall|a: int| 0 <= a < items@.len() ==> !unused_value(types@, skip_conv()(#[trigger] items@[a].data)),
            forall|a: int, b: int| 0 <= a < i && a < b < items@.len() ==> #[trigger] items@[a].data != #[trigger] items@[b].data,
            first_unused(types@, items@, skip_conv(), 0) is None,
            first_duplicated(items@, 0) == first_duplicated(items@, i as int),
        decreases items@.len() - i,
    {
        let mut j: usize = i + 1;
        while j < items.len()
            invariant
                i < items@.len(),
                i + 1 <= j <= items@.len(),
                forall|a: int| 0 <= a < items@.len() ==> !unused_value(types@, skip_conv()(#[trigger] items@[a].data)),
                forall|b: int| i < b < j ==> items@[i as int].data != #[trigger] items@[b].data,
                first_unused(types@, items@, skip_conv(), 0) is None,
                first_duplicated(items@, 0) == first_duplicated(items@, i as int),
            decreases items@.len() - j,
        {
            if items[j].data == items[i].data {
                assert(items@[i as int].data == items@[j as int].data);
                proof {
                    reveal_strlit("");
                    assert(first_duplicated(items@, i as int) == Some(i as int));
                }
                return Err(named_error(items[j].span, Fault::Duplicate, "duplicate value: ", skip_name(items[j].data), ""));
            }
            j = j + 1;
        }
        i = i + 1;
    }
    Ok(())
}


impl QueryTable {
    /// Whether the struct of a query type is generated.
    fn generated(&self, t: Types) -> (b: bool)
        ensures
            b == (self.type_attr(t) is Some),
    {
        match t {
            Types::Delete => self.attr.delete.is_some(),
            Types::Insert => self.attr.insert.is_some(),
            Types::Select => self.attr.select.is_some(),
            Types::Update => self.attr.update.is_some(),
        }
    }

    /// Checks that attributes of a query type come with its struct.
    fn check_type(&self, t: Types) -> (r: Result<(), Error>)
        ensures
            r is Ok <==> !self.type_unused(t),
            r matches Err(e) ==> e.fault == Fault::Unused && e.message@ == type_message(t),
    {
        let a = &self.attr;
        let (attr, derive, visibility, filter, optional, returning) = match t {
            Types::Delete => (&a.delete, &a.delete_derive, a.delete_visibility, first_span(&a.delete_filter), &a.delete_optional, &a.delete_returning),
            Types::Insert => (&a.insert, &a.insert_derive, a.insert_visibility, None, &a.insert_optional, &a.insert_returning),
            Types::Select => (&a.select, &a.select_derive, a.select_visibility, first_span(&a.select_filter), &a.select_optional, &None),
            Types::Update => (&a.update, &a.update_derive, a.update_visibility, first_span(&a.update_filter), &a.update_optional, &a.update_returning),
        };
        if attr.is_none() {
            let span = if let Some(s) = first_of(derive) {
                Some(s)
            } else if visibility.is_some() {
                visibility
            } else if filter.is_some() {
                filter
            } else if let Some(o) = optional {
                Some(o.span)
            } else if let Some(o) = returning {
                Some(o.span)
            } else {
                None
            };
            if let Some(span) = span {
                return Err(crate::validate::named_error(span, Fault::Unused, "unused attribute: requires #[sqly(", t.name(), ")]"));
            }
        }
        Ok(())
    }

    /// Checks a field's `key` and `skip` lists.
    #[verifier::loop_isolation(false)]
    fn check_keyed(&self, types: &Vec<Types>, field: &QueryField) -> (r: Result<(), Error>)
        requires
            types@ == self.spec_types(),
        ensures
            r is Ok <==> self.key_fault(*field) is None,
            r matches Err(e) ==> Some(e.fault) == self.key_fault(*field),
            r matches Err(e) ==> e.message@ == self.key_message(*field),
    {
        if let Some(k) = &field.attr.key {
            check_keys(types, &k.data)?;
        }
        if let Some(sk) = &field.attr.skip {
            check_skips(types, &sk.data)?;
        }
        if let Some(keys) = &field.attr.key {
            if let Some(skips) = &field.attr.skip {
                if skips.data.len() == 0 {
                    if keys.data.len() == 0 {
                        return Err(Error::new(skips.span, Fault::Conflicting, "conflicting attributes: #[sqly(skip, key)]".to_owned()));
                    } else {
                        return Err(Error::new(skips.span, Fault::Ambiguous, "ambiguous attributes: #[sqly(skip, key = ...)]".to_owned()));
                    }
                }
                let mut i: usize = 0;
                while i < skips.data.len()
                    invariant
                        i <= skips.data@.len(),
                        field.attr.skip == Some(*skips),
                        field.attr.key == Some(*keys),
                        forall|a: int, b: int| 0 <= a < i && 0 <= b < keys.data@.len()
                            ==> #[trigger] spec_skip_type(skips.data@[a].data) != Some(spec_key_type(#[trigger] keys.data@[b].data)),
                        first_conflict(skips.data@, keys.data@, 0) == first_conflict(skips.data@, keys.data@, i as int),
                    decreases skips.data@.len() - i,
                {
                    if let Some(t) = Types::from_skips(skips.data[i].data) {
                        let mut j: usize = 0;
                        while j < keys.data.len()
                            invariant
                                i < skips.data@.len(),
                                j <= keys.data@.len(),
                                spec_skip_type(skips.data@[i as int].data) == Some(t),
                                forall|b: int| 0 <= b < j ==> t != spec_key_type(#[trigger] keys.data@[b].data),
                            decreases keys.data@.len() - j,
                        {
                            if keys.data[j].data.types() == t {
                                assert(spec_skip_type(skips.data@[i as int].data) == Some(spec_key_type(keys.data@[j as int].data)));
                                assert(first_conflict(skips.data@, keys.data@, i as int) == Some(i as int));
                                let mut msg = String::new();
                                crate::text::push_str(&mut msg, "conflicting attributes: #[sqly(skip = ");
                                crate::text::push_str(&mut msg, t.name());
                                crate::text::push_str(&mut msg, ", key = ");
                                crate::text::push_str(&mut msg, t.name());
                                crate::text::push_str(&mut msg, ")]");
                                return Err(Error::new(skips.data[i].span, Fault::Conflicting, msg));
                            }
                            j = j + 1;
                        }
                    }
                    i = i + 1;
                }
            }
        }
        Ok(())
    }

    /// Checks that a field's attributes of each query type are used, and that
    /// `filter` comes with `key`.
    fn check_used(&self, field: &QueryField) -> (r: Result<(), Error>)
        ensures
            r is Ok <==> !self.field_unused(*field),
            r matches Err(e) ==> e.fault == Fault::Unused && e.message@ == self.used_message(*field, 0),
    {
        let mut types: Vec<Types> = Vec::new();
        types.push(Types::Delete);
        types.push(Types::Insert);
        types.push(Types::Select);
        types.push(Types::Update);
        let mut i: usize = 0;
        while i < 4
            invariant
                i <= 4,
                types@ == seq![Types::Delete, Types::Insert, Types::Select, Types::Update],
                forall|j: int| 0 <= j < i ==> !(field_present(*field, #[trigger] types@[j])
                    && (self.type_attr(types@[j]) is None || !self.spec_fielded(*field, types@[j]))),
                self.used_message(*field, 0) == self.used_message(*field, i as int),
            decreases 4 - i,
        {
            let t = types[i];
            if let Some(span) = present_span(field, t) {
                if !self.generated(t) {
                    return Err(crate::validate::named_error(span, Fault::Unused, "unused attribute: requires #[sqly(", t.name(), ")] on struct"));
                }
                if !self.fielded(field, t) {
                    return Err(crate::validate::named_error(span, Fault::Unused, "unused attribute: field not included in #[sqly(", t.name(), ")]"));
                }
            }
            i = i + 1;
        }
        assert forall|t: Types| !(#[trigger] field_present(*field, t) && (self.type_attr(t) is None || !self.spec_fielded(*field, t))) by {
            match t {
                Types::Delete => assert(types@[0] == t),
                Types::Insert => assert(types@[1] == t),
                Types::Select => assert(types@[2] == t),
                Types::Update => assert(types@[3] == t),
            }
        }
        if field.attr.key.is_none() {
            if let Some(span) = first_span(&field.attr.filter) {
                return Err(Error::new(span, Fault::Unused, "unused attribute: requires #[sqly(key)]".to_owned()));
            }
        }
        Ok(())
    }

    /// Checks a field's `foreign` against its type, `skip` and `select`, or its
    /// `target` without `foreign`.
    #[verifier::loop_isolation(false)]
    fn check_foreign(&self, field: &QueryField) -> (r: Result<(), Error>)
        ensures
            r is Ok <==> self.foreign_fault(*field) is None,
            r matches Err(e) ==> Some(e.fault) == self.foreign_fault(*field),
            r matches Err(e) ==> e.message@ == self.foreign_message(*field),
    {
        if let Some(span) = field.attr.foreign {
            if field.path.is_none() {
                return Err(Error::new(span, Fault::Invalid,
                    "invalid type: expected path\nnote: expected due to #[sqly(foreign)] attribute".to_owned()));
            }
            if let Some(skips) = &field.attr.skip {
                if skips.data.len() == 0 {
                    return Err(Error::new(skips.span, Fault::Conflicting, "conflicting attributes: #[sqly(skip, foreign)]".to_owned()));
                }
                let mut i: usize = 0;
                while i < skips.data.len()
                    invariant
                        i <= skips.data@.len(),
                        forall|j: int| 0 <= j < i ==> #[trigger] skips.data@[j].data != Skips::FromRow,
                    decreases skips.data@.len() - i,
                {
                    if skips.data[i].data == Skips::FromRow {
                        return Err(Error::new(skips.data[i].span, Fault::Conflicting, "conflicting attributes: #[sqly(skip, foreign)]".to_owned()));
                    }
                    i = i + 1;
                }
            }
            if let Some(span) = first_span(&field.attr.select) {
                return Err(Error::new(span, Fault::Conflicting, "conflicting attributes: #[sqly(foreign, select)]".to_owned()));
            }
        } else if let Some(target) = &field.attr.target {
            return Err(Error::new(target.span, Fault::Unused, "unused attribute: requires #[sqly(foreign)]".to_owned()));
        }
        Ok(())
    }

    /// Where some field is optional in a query whose struct is generated and holds it.
    fn find_optional(&self) -> (r: Option<Span>)
        ensures
            r is Some <==> self.any_optional(),
    {
        let mut types: Vec<Types> = Vec::new();
        types.push(Types::Delete);
        types.push(Types::Insert);
        types.push(Types::Select);
        types.push(Types::Update);
        let mut k: usize = 0;
        while k < 4
            invariant
                k <= 4,
                types@ == seq![Types::Delete, Types::Insert, Types::Select, Types::Update],
                forall|a: int, i: int| 0 <= a < k && 0 <= i < self.fields@.len() ==> !(self.type_attr(types@[a]) is Some
                    && #[trigger] self.spec_fielded(self.fields@[i], types@[a]) && self.spec_optional(self.fields@[i], types@[a]) is Some),
            decreases 4 - k,
        {
            let t = types[k];
            if self.generated(t) {
                let mut i: usize = 0;
                while i < self.fields.len()
                    invariant
                        k < 4,
                        types@ == seq![Types::Delete, Types::Insert, Types::Select, Types::Update],
                        t == types@[k as int],
                        self.type_attr(t) is Some,
                        i <= self.fields@.len(),
                        forall|j: int| 0 <= j < i ==> !(#[trigger] self.spec_fielded(self.fields@[j], t) && self.spec_optional(self.fields@[j], t) is Some),
                    decreases self.fields@.len() - i,
                {
                    let field = &self.fields[i];
                    if self.fielded(field, t) {
                        if let Some(span) = self.optional(field, t) {
                            assert(self.spec_fielded(self.fields@[i as int], t));
                            return Some(span);
                        }
                    }
                    i = i + 1;
                }
            }
            k = k + 1;
        }
        assert forall|t: Types, i: int| 0 <= i < self.fields@.len() && self.type_attr(t) is Some
            implies !(#[trigger] self.spec_fielded(self.fields@[i], t) && self.spec_optional(self.fields@[i], t) is Some) by {
            match t {
                Types::Delete => assert(types@[0] == t),
                Types::Insert => assert(types@[1] == t),
                Types::Select => assert(types@[2] == t),
                Types::Update => assert(types@[3] == t),
            }
        }
        None
    }

    /// Checks the table's attributes: each query type's attributes come with its
    /// struct, `flat` attributes with `flat`, `key` and `skip` lists are valid and
    /// agree, field attributes are used, `foreign` fits its field, `dynamic` is
    /// given exactly when some field is optional. A returning table named `Self`
    /// then names the struct itself.
    #[verifier::loop_isolation(false)]
    pub fn init(self) -> (r: Result<QueryTable, Error>)
        ensures
            r is Ok <==> self.spec_fault() is None,
            r matches Err(e) ==> Some(e.fault) == self.spec_fault(),
            r matches Err(e) ==> self.spec_message() == Some(e.message@),
            r matches Ok(t) ==> t == (QueryTable {
                attr: crate::table::QueryTableAttr {
                    returning: rebound(self.attr.returning, self.ident),
                    delete_returning: rebound(self.attr.delete_returning, self.ident),
                    insert_returning: rebound(self.attr.insert_returning, self.ident),
                    update_returning: rebound(self.attr.update_returning, self.ident),
                    ..self.attr
                },
                ..self
            }),
    {
        self.check_type(Types::Delete)?;
        self.check_type(Types::Insert)?;
        self.check_type(Types::Select)?;
        self.check_type(Types::Update)?;
        if self.attr.flat.is_none() {
            if let Some(span) = self.attr.from_flat {
                return Err(Error::new(span, Fault::Unused, "unused attribute: requires #[sqly(flat)]".to_owned()));
            }
            if let Some(span) = self.attr.try_from_flat {
                return Err(Error::new(span, Fault::Unused, "unused attribute: requires #[sqly(flat)]".to_owned()));
            }
            if let Some(span) = self.attr.flat_row {
                return Err(Error::new(span, Fault::Unused, "unused attribute: requires #[sqly(flat)]".to_owned()));
            }
        }
        let types = self.types();
        let mut i: usize = 0;
        while i < self.fields.len()
            invariant
                i <= self.fields@.len(),
                types@ == self.spec_types(),
                self.first_fault(0, 0) == self.first_fault(0, i as int),
                self.first_message(0, 0) == self.first_message(0, i as int),
            decreases self.fields@.len() - i,
        {
            self.check_keyed(&types, &self.fields[i])?;
            i = i + 1;
        }
        let mut i: usize = 0;
        while i < self.fields.len()
            invariant
                i <= self.fields@.len(),
                self.first_fault(0, 0) is None,
                self.first_fault(1, 0) == self.first_fault(1, i as int),
                self.first_message(1, 0) == self.first_message(1, i as int),
            decreases self.fields@.len() - i,
        {
            self.check_used(&self.fields[i])?;
            i = i + 1;
        }
        let mut i: usize = 0;
        while i < self.fields.len()
            invariant
                i <= self.fields@.len(),
                self.first_fault(0, 0) is None,
                self.first_fault(1, 0) is None,
                self.first_fault(2, 0) == self.first_fault(2, i as int),
                self.first_message(2, 0) == self.first_message(2, i as int),
            decreases self.fields@.len() - i,
        {
            self.check_foreign(&self.fields[i])?;
            i = i + 1;
        }
        if let Some(span) = self.attr.serde_double_option {
            return Err(Error::new(span, Fault::Unused, "unused attribute: requires the serde feature".to_owned()));
        }
        let opt = self.find_optional();
        check_static(self.attr.dynamic, opt)?;
        let mut t = self;
        let ident = t.ident.clone();
        t.attr.returning = rebind(t.attr.returning, &ident);
        t.attr.delete_returning = rebind(t.attr.delete_returning, &ident);
        t.attr.insert_returning = rebind(t.attr.insert_returning, &ident);
        t.attr.update_returning = rebind(t.attr.update_returning, &ident);
        Ok(t)
    }
}

} // verus!
