use vstd::prelude::*;
use proc_macro2::Span;
use crate::attrs::Rename;
use crate::error::{Error, Fault, call_site};
use crate::rename::renamed;
use crate::rules::Info;
use crate::table::{Returning, spany, first_span};
use crate::text::{chars_of, push_str};

verus! {

/// The field attributes of the delete, insert, select and update derives, as plain values.
/// Each derive reads the ones it knows.
pub struct FieldAttr {
    pub column: Option<Info<String>>,
    pub rename: Option<Rename>,
    pub filter: Vec<Info<String>>,
    pub insert: Vec<Info<String>>,
    pub update: Vec<Info<String>>,
    pub optional: Option<Info<Option<bool>>>,
    pub value: Option<Span>,
    pub infer: Option<Span>,
    pub skip: Option<Span>,
    pub key: Option<Span>,
}

/// A field of a delete, insert, select or update struct.
pub struct Field {
    /// The field name, without any `r#`.
    pub ident: String,
    pub span: Span,
    /// Whether the field's type is an `Option`.
    pub option: bool,
    pub attr: FieldAttr,
}

/// The struct attributes of the delete, insert, select and update derives, as plain values.
pub struct TableAttr {
    /// The SQL name of the table operated on (resolved where the attribute names a table struct).
    pub table: String,
    /// The identifier of the table struct, where the attribute names one.
    pub path: Option<String>,
    pub rename: Option<Rename>,
    pub dynamic: Option<Span>,
    pub optional: Option<Span>,
    pub keyless: Option<Span>,
    pub filter: Vec<Info<String>>,
    pub returning: Option<Info<Option<Returning>>>,
    pub unchecked: Option<Span>,
}

/// Marks a struct deriving `Delete`.
pub struct ForDelete;
/// Marks a struct deriving `Insert`.
pub struct ForInsert;
/// Marks a struct deriving `Select`.
pub struct ForSelect;
/// Marks a struct deriving `Update`.
pub struct ForUpdate;

/// A struct deriving one of the query traits; `K` tells which.
pub struct Derived<K> {
    /// The struct name, without any `r#`.
    pub ident: String,
    pub fields: Vec<Field>,
    pub attr: TableAttr,
    pub kind: K,
}

pub type DeleteTable = Derived<ForDelete>;
pub type InsertTable = Derived<ForInsert>;
pub type SelectTable = Derived<ForSelect>;
pub type UpdateTable = Derived<ForUpdate>;

/// The characters that end a column name and start its type annotation.
pub open spec fn sep(c: char) -> bool {
    c == '!' || c == '?' || c == ':'
}

/// The position of the first annotation character.
pub open spec fn first_sep(s: Seq<char>, from: int) -> int
    decreases s.len() - from,
{
    if from < 0 || from >= s.len() {
        s.len() as int
    } else if sep(s[from]) {
        from
    } else {
        first_sep(s, from + 1)
    }
}

pub proof fn lemma_first_sep(s: Seq<char>, from: int)
    requires
        0 <= from <= s.len(),
    ensures
        from <= first_sep(s, from) <= s.len(),
    decreases s.len() - from,
{
    if from < s.len() && !sep(s[from]) {
        lemma_first_sep(s, from + 1);
    }
}

/// A name after an optional case convention.
pub open spec fn maybe_renamed(r: Option<Rename>, s: Seq<char>) -> Seq<char> {
    match r {
        Some(r) => renamed(r, s),
        None => s,
    }
}

/// The column name and type annotation declared for a field.
///
/// Without a `column` attribute the field name is used; a `column` value is split
/// at its first `!`, `?` or `:` into the name and the annotation. The name is
/// renamed by the field's or else the struct's convention. With `infer` the
/// annotation becomes `!: _`, `?: _` or `: _`, keeping a leading `!` or `?`.
pub open spec fn declared(
    column: Option<Seq<char>>,
    infer: bool,
    rename: Option<Rename>,
    ident: Seq<char>,
) -> (Seq<char>, Seq<char>) {
    let (name, info) = match column {
        None => (maybe_renamed(rename, ident), Seq::<char>::empty()),
        Some(c) => {
            let i = first_sep(c, 0);
            (maybe_renamed(rename, c.take(i)), c.skip(i))
        }
    };
    let info = if infer {
        if info.len() > 0 && info[0] == '!' {
            "!: _"@
        } else if info.len() > 0 && info[0] == '?' {
            "?: _"@
        } else {
            ": _"@
        }
    } else {
        info
    };
    (name, info)
}

/// Applies an optional case convention.
pub fn rename_with(r: Option<Rename>, s: &str) -> (out: String)
    ensures
        out@ == maybe_renamed(r, s@),
{
    match r {
        Some(r) => r.rename(s),
        None => s.to_owned(),
    }
}

/// The column name and type annotation declared for a field.
pub fn declare(column: Option<&String>, infer: bool, rename: Option<Rename>, ident: &str) -> (r: (String, String))
    ensures
        (r.0@, r.1@) == declared(
            match column { Some(c) => Some(c@), None => None },
            infer, rename, ident@,
        ),
{
    let (name, info) = match column {
        None => (rename_with(rename, ident), String::new()),
        Some(c) => {
            let v = chars_of(c.as_str());
            let mut i: usize = 0;
            while i < v.len() && !(v[i] == '!' || v[i] == '?' || v[i] == ':')
                invariant
                    i <= v@.len(),
                    v@ == c@,
                    first_sep(v@, 0) == first_sep(v@, i as int),
                decreases v@.len() - i,
            {
                i = i + 1;
            }
            let head = crate::text::string_of(&v.as_slice()[0..i]);
            let tail = crate::text::string_of(&v.as_slice()[i..v.len()]);
            assert(tail@ == c@.skip(i as int));
            (rename_with(rename, head.as_str()), tail)
        }
    };
    if infer {
        let first = chars_of(info.as_str());
        proof {
            reveal_strlit("!: _");
            reveal_strlit("?: _");
            reveal_strlit(": _");
        }
        if first.len() > 0 && first[0] == '!' {
            (name, "!: _".to_owned())
        } else if first.len() > 0 && first[0] == '?' {
            (name, "?: _".to_owned())
        } else {
            (name, ": _".to_owned())
        }
    } else {
        (name, info)
    }
}

/// What the static check finds wrong: `dynamic` without optional fields, or an
/// optional field without `dynamic`.
pub open spec fn static_fault(dynamic: Option<Span>, optional: Option<Span>) -> Option<Span> {
    match dynamic {
        Some(span) => if optional is None { Some(span) } else { None },
        None => optional,
    }
}

/// The message when `dynamic` is given without optional fields, or optional fields
/// without `dynamic`.
pub open spec fn static_message(dynamic: Option<Span>) -> Seq<char> {
    if dynamic is Some {
        "unused attribute: queries do not need to be generated at runtime\nnote: no fields end up parsed as #[sqly(optional)] in generated queries,\n      remove #[sqly(dynamic)] to indicate static queries can be generated"@
    } else {
        "unused attribute: requires #[sqly(dynamic)] on struct\nnote: due to #[sqly(optional)] queries must be generated at runtime,\n      use #[sqly(dynamic)] to explicitly opt-in for this behavior"@
    }
}

/// Checks that `dynamic` is given exactly when some field is optional.
pub fn check_static(dynamic: Option<Span>, optional: Option<Span>) -> (r: Result<(), Error>)
    ensures
        r is Ok <==> static_fault(dynamic, optional) is None,
        r matches Err(e) ==> e.fault == Fault::Unused && Some(e.span) == static_fault(dynamic, optional),
        r matches Err(e) ==> e.message@ == static_message(dynamic),
{
    match dynamic {
        Some(span) => if optional.is_none() {
            let msg = "unused attribute: queries do not need to be generated at runtime\nnote: no fields end up parsed as #[sqly(optional)] in generated queries,\n      remove #[sqly(dynamic)] to indicate static queries can be generated";
            return Err(Error::new(span, Fault::Unused, msg.to_owned()));
        },
        None => if let Some(span) = optional {
            let msg = "unused attribute: requires #[sqly(dynamic)] on struct\nnote: due to #[sqly(optional)] queries must be generated at runtime,\n      use #[sqly(dynamic)] to explicitly opt-in for this behavior";
            return Err(Error::new(span, Fault::Unused, msg.to_owned()));
        },
    }
    Ok(())
}

impl<K> Derived<K> {
    /// Whether a field takes part in queries (it is not skipped).
    pub open spec fn included(&self, i: int) -> bool {
        self.fields@[i].attr.skip is None
    }

    /// Where a field is optional: its own `optional` attribute decides (`optional = false`
    /// turns it off); otherwise the struct's `optional` applies to fields of `Option` type.
    pub open spec fn spec_optional(&self, field: Field) -> Option<Span> {
        match field.attr.optional {
            Some(opt) => if opt.data matches Some(b) && !b { None } else { Some(opt.span) },
            None => match self.attr.optional {
                Some(span) => if field.option { Some(span) } else { None },
                None => None,
            },
        }
    }

    /// Where a field is optional.
    pub fn optional(&self, field: &Field) -> (r: Option<Span>)
        ensures
            r == self.spec_optional(*field),
    {
        match &field.attr.optional {
            Some(opt) => match opt.data {
                Some(b) => if b { Some(opt.span) } else { None },
                None => Some(opt.span),
            },
            None => match self.attr.optional {
                Some(span) => if field.option { Some(span) } else { None },
                None => None,
            },
        }
    }

    /// Where `dynamic` was given.
    pub fn dynamic(&self) -> (r: Option<Span>)
        ensures
            r == self.attr.dynamic,
    {
        self.attr.dynamic
    }

    /// Whether queries are checked at compile time (unless `unchecked` is given).
    pub fn checked(&self) -> (b: bool)
        ensures
            b == (self.attr.unchecked is None),
    {
        self.attr.unchecked.is_none()
    }

    /// The first field (skipped ones included) that is optional.
    pub open spec fn first_optional(&self, from: int) -> Option<Span>
        decreases self.fields@.len() - from,
    {
        if from < 0 || from >= self.fields@.len() {
            None
        } else if self.spec_optional(self.fields@[from]) is Some {
            self.spec_optional(self.fields@[from])
        } else {
            self.first_optional(from + 1)
        }
    }

    /// Checks that `dynamic` is given exactly when some field is optional.
    pub fn check_fields_static(&self) -> (r: Result<(), Error>)
        ensures
            r is Ok <==> static_fault(self.attr.dynamic, self.first_optional(0)) is None,
            r matches Err(e) ==> e.fault == Fault::Unused
                && Some(e.span) == static_fault(self.attr.dynamic, self.first_optional(0)),
            r matches Err(e) ==> e.message@ == static_message(self.attr.dynamic),
    {
        let mut i: usize = 0;
        let mut opt: Option<Span> = None;
        while i < self.fields.len() && opt.is_none()
            invariant
                i <= self.fields@.len(),
                opt is None ==> self.first_optional(0) == self.first_optional(i as int),
                opt is Some ==> opt == self.first_optional(0),
            decreases self.fields@.len() - i,
        {
            opt = self.optional(&self.fields[i]);
            i = i + 1;
        }
        check_static(self.attr.dynamic, opt)
    }

    /// The column name and type annotation of a field.
    pub open spec fn spec_declaration(&self, field: Field) -> (Seq<char>, Seq<char>) {
        declared(
            match field.attr.column { Some(c) => Some(c.data@), None => None },
            field.attr.infer is Some,
            if field.attr.rename is Some { field.attr.rename } else { self.attr.rename },
            field.ident@,
        )
    }

    /// The column name and type annotation of a field.
    pub fn declaration(&self, field: &Field) -> (r: (String, String))
        ensures
            (r.0@, r.1@) == self.spec_declaration(*field),
    {
        let rename = if field.attr.rename.is_some() { field.attr.rename } else { self.attr.rename };
        let column = match &field.attr.column {
            Some(c) => Some(&c.data),
            None => None,
        };
        declare(column, field.attr.infer.is_some(), rename, field.ident.as_str())
    }

    /// The column name of a field.
    pub fn column(&self, field: &Field) -> (r: String)
        ensures
            r@ == self.spec_declaration(*field).0,
    {
        self.declaration(field).0
    }

    /// Whether any included field satisfies a key condition.
    pub open spec fn any_included(&self, keyed: Option<bool>, certain: bool) -> bool {
        exists|i: int| 0 <= i < self.fields@.len() && self.fields@[i].attr.skip is None
            && (keyed matches Some(k) ==> (self.fields@[i].attr.key is Some) == k)
            && (certain ==> self.spec_optional(self.fields@[i]) is None)
    }

    /// Whether some included field is a key (`Some(true)`), a value (`Some(false)`)
    /// or either (`None`); with `certain`, one that is not optional.
    pub fn find_included(&self, keyed: Option<bool>, certain: bool) -> (b: bool)
        ensures
            b == self.any_included(keyed, certain),
    {
        let mut i: usize = 0;
        while i < self.fields.len()
            invariant
                i <= self.fields@.len(),
                forall|j: int| 0 <= j < i ==> !(self.fields@[j].attr.skip is None
                    && (keyed matches Some(k) ==> (self.fields@[j].attr.key is Some) == k)
                    && (certain ==> self.spec_optional(self.fields@[j]) is None)),
            decreases self.fields@.len() - i,
        {
            let f = &self.fields[i];
            let k_ok = match keyed {
                Some(k) => f.attr.key.is_some() == k,
                None => true,
            };
            if f.attr.skip.is_none() && k_ok && (!certain || self.optional(f).is_none()) {
                assert(self.fields@[i as int].attr.skip is None);
                return true;
            }
            i = i + 1;
        }
        false
    }

    /// The first field for which `skip` conflicts with the given list attribute
    /// (`filter` when `insert` is false, `insert` otherwise).
    pub open spec fn skip_conflict(&self, insert: bool) -> bool {
        exists|i: int| 0 <= i < self.fields@.len() && self.fields@[i].attr.skip is Some
            && (if insert { self.fields@[i].attr.insert@.len() > 0 } else { self.fields@[i].attr.filter@.len() > 0 })
    }

    /// Finds a field whose `skip` conflicts with the given list attribute.
    fn find_skip_conflict(&self, insert: bool) -> (r: Option<Span>)
        ensures
            r is Some <==> self.skip_conflict(insert),
    {
        let mut i: usize = 0;
        while i < self.fields.len()
            invariant
                i <= self.fields@.len(),
                forall|j: int| 0 <= j < i ==> !(self.fields@[j].attr.skip is Some
                    && (if insert { self.fields@[j].attr.insert@.len() > 0 } else { self.fields@[j].attr.filter@.len() > 0 })),
            decreases self.fields@.len() - i,
        {
            let f = &self.fields[i];
            let listed = if insert { f.attr.insert.len() > 0 } else { f.attr.filter.len() > 0 };
            if f.attr.skip.is_some() && listed {
                return f.attr.skip;
            }
            i = i + 1;
        }
        None
    }
}

impl DeleteTable {
    /// Whether the delete query is complete whatever optional fields are absent:
    /// some included field is not optional.
    pub fn certain(&self) -> (b: bool)
        ensures
            b == self.any_included(None, true),
    {
        self.find_included(None, true)
    }

    /// What the delete checks find wrong, in the order they run.
    pub open spec fn spec_fault(&self) -> Option<Fault> {
        if self.skip_conflict(false) {
            Some(Fault::Conflicting)
        } else if self.attr.keyless is Some && self.any_included(None, false) {
            Some(Fault::Conflicting)
        } else if self.attr.keyless is None && !self.any_included(None, false) {
            Some(Fault::Incomplete)
        } else if static_fault(self.attr.dynamic, self.first_optional(0)) is Some {
            Some(Fault::Unused)
        } else {
            None
        }
    }

    /// The message of the error that the delete checks report (see `spec_fault`).
    pub open spec fn spec_message(&self) -> Seq<char> {
        if self.skip_conflict(false) {
            "conflicting attributes: #[sqly(skip, filter)]"@
        } else if self.attr.keyless is Some && self.any_included(None, false) {
            "conflicting attribute: #[sqly(keyless)] with keys\nhelp: remove #[sqly(keyless)]"@
        } else if self.attr.keyless is None && !self.any_included(None, false) {
            "incomplete query: missing delete key\nhelp: use #[sqly(keyless)] if intended"@
        } else {
            static_message(self.attr.dynamic)
        }
    }

    /// Checks the attributes: `skip` excludes `filter`; `keyless` is needed exactly
    /// when no field is a key; `dynamic` is needed exactly when a field is optional.
    pub fn init(&self) -> (r: Result<(), Error>)
        ensures
            r is Ok <==> self.spec_fault() is None,
            r matches Err(e) ==> Some(e.fault) == self.spec_fault() && e.message@ == self.spec_message(),
    {
        if let Some(span) = self.find_skip_conflict(false) {
            return Err(Error::new(span, Fault::Conflicting, "conflicting attributes: #[sqly(skip, filter)]".to_owned()));
        }
        let keys = self.find_included(None, false);
        if let Some(span) = self.attr.keyless {
            if keys {
                return Err(Error::new(span, Fault::Conflicting,
                    "conflicting attribute: #[sqly(keyless)] with keys\nhelp: remove #[sqly(keyless)]".to_owned()));
            }
        } else if !keys {
            return Err(Error::new(call_site(), Fault::Incomplete,
                "incomplete query: missing delete key\nhelp: use #[sqly(keyless)] if intended".to_owned()));
        }
        self.check_fields_static()
    }
}

impl InsertTable {
    /// Whether the insert query is complete whatever optional fields are absent.
    pub fn certain(&self) -> (b: bool)
        ensures
            b == self.any_included(None, true),
    {
        self.find_included(None, true)
    }

    /// What the insert checks find wrong, in the order they run.
    pub open spec fn spec_fault(&self) -> Option<Fault> {
        if self.skip_conflict(true) {
            Some(Fault::Conflicting)
        } else if !self.any_included(None, false) {
            Some(Fault::Incomplete)
        } else if static_fault(self.attr.dynamic, self.first_optional(0)) is Some {
            Some(Fault::Unused)
        } else {
            None
        }
    }

    /// The message of the error that the insert checks report (see `spec_fault`).
    pub open spec fn spec_message(&self) -> Seq<char> {
        if self.skip_conflict(true) {
            "conflicting attributes: #[sqly(skip, insert)]"@
        } else if !self.any_included(None, false) {
            "incomplete query: missing insert value"@
        } else {
            static_message(self.attr.dynamic)
        }
    }

    /// Checks the attributes: `skip` excludes `insert`; some field is inserted;
    /// `dynamic` is needed exactly when a field is optional.
    pub fn init(&self) -> (r: Result<(), Error>)
        ensures
            r is Ok <==> self.spec_fault() is None,
            r matches Err(e) ==> Some(e.fault) == self.spec_fault() && e.message@ == self.spec_message(),
    {
        if let Some(span) = self.find_skip_conflict(true) {
            return Err(Error::new(span, Fault::Conflicting, "conflicting attributes: #[sqly(skip, insert)]".to_owned()));
        }
        if !self.find_included(None, false) {
            return Err(Error::new(call_site(), Fault::Incomplete, "incomplete query: missing insert value".to_owned()));
        }
        self.check_fields_static()
    }
}

impl SelectTable {
    /// Select queries are always complete.
    pub fn certain(&self) -> (b: bool)
        ensures
            b,
    {
        true
    }

    /// What the select checks find wrong, in the order they run.
    pub open spec fn spec_fault(&self) -> Option<Fault> {
        if self.skip_conflict(false) {
            Some(Fault::Conflicting)
        } else if self.attr.returning is Some {
            Some(Fault::Unused)
        } else if static_fault(self.attr.dynamic, self.first_optional(0)) is Some {
            Some(Fault::Unused)
        } else {
            None
        }
    }

    /// The message of the error that the select checks report (see `spec_fault`).
    pub open spec fn spec_message(&self) -> Seq<char> {
        if self.skip_conflict(false) {
            "conflicting attributes: #[sqly(skip, filter)]"@
        } else if self.attr.returning is Some {
            "impossible attribute: this should not exist"@
        } else {
            static_message(self.attr.dynamic)
        }
    }

    /// Checks the attributes: `skip` excludes `filter`; `returning` is not accepted;
    /// `dynamic` is needed exactly when a field is optional.
    pub fn init(&self) -> (r: Result<(), Error>)
        ensures
            r is Ok <==> self.spec_fault() is None,
            r matches Err(e) ==> Some(e.fault) == self.spec_fault() && e.message@ == self.spec_message(),
    {
        if let Some(span) = self.find_skip_conflict(false) {
            return Err(Error::new(span, Fault::Conflicting, "conflicting attributes: #[sqly(skip, filter)]".to_owned()));
        }
        if let Some(ret) = &self.attr.returning {
            return Err(Error::new(ret.span, Fault::Unused, "impossible attribute: this should not exist".to_owned()));
        }
        self.check_fields_static()
    }
}

impl UpdateTable {
    /// Whether the update query is complete whatever optional fields are absent:
    /// some value and some key are not optional.
    pub fn certain(&self) -> (b: bool)
        ensures
            b == (self.any_included(Some(false), true) && self.any_included(Some(true), true)),
    {
        self.find_included(Some(false), true) && self.find_included(Some(true), true)
    }

    /// A field whose attributes conflict: `skip` with `key` or `update`, `key` with
    /// `update`, or `filter` without `key`.
    pub open spec fn field_fault(&self, i: int) -> Option<Fault> {
        let a = self.fields@[i].attr;
        if a.skip is Some && a.key is Some {
            Some(Fault::Conflicting)
        } else if a.skip is Some && a.update@.len() > 0 {
            Some(Fault::Conflicting)
        } else if a.key is Some && a.update@.len() > 0 {
            Some(Fault::Conflicting)
        } else if a.key is None && a.filter@.len() > 0 {
            Some(Fault::Unused)
        } else {
            None
        }
    }

    /// The fault of the first field with conflicting attributes.
    pub open spec fn fields_fault(&self, from: int) -> Option<Fault>
        decreases self.fields@.len() - from,
    {
        if from < 0 || from >= self.fields@.len() {
            None
        } else if self.field_fault(from) is Some {
            self.field_fault(from)
        } else {
            self.fields_fault(from + 1)
        }
    }

    /// What the update checks find wrong, in the order they run.
    pub open spec fn spec_fault(&self) -> Option<Fault> {
        if self.fields_fault(0) is Some {
            self.fields_fault(0)
        } else if !self.any_included(Some(false), false) {
            Some(Fault::Incomplete)
        } else if self.attr.keyless is Some && self.any_included(Some(true), false) {
            Some(Fault::Conflicting)
        } else if self.attr.keyless is None && !self.any_included(Some(true), false) {
            Some(Fault::Incomplete)
        } else if static_fault(self.attr.dynamic, self.first_optional(0)) is Some {
            Some(Fault::Unused)
        } else {
            None
        }
    }

    /// The message of the first field with conflicting attributes.
    pub open spec fn field_message(&self, i: int) -> Seq<char> {
        let a = self.fields@[i].attr;
        if a.skip is Some && a.key is Some {
            "conflicting attributes: #[sqly(skip, key)]"@
        } else if a.skip is Some && a.update@.len() > 0 {
            "conflicting attributes: #[sqly(skip, update)]"@
        } else if a.key is Some && a.update@.len() > 0 {
            "conflicting attributes: #[sqly(key, update)]"@
        } else {
            "unused attribute: requires #[sqly(key)]"@
        }
    }

    /// The message of the first field with conflicting attributes from `from` on.
    pub open spec fn fields_message(&self, from: int) -> Seq<char>
        decreases self.fields@.len() - from,
    {
        if from < 0 || from >= self.fields@.len() {
            Seq::empty()
        } else if self.field_fault(from) is Some {
            self.field_message(from)
        } else {
            self.fields_message(from + 1)
        }
    }

    /// The message of the error that the update checks report (see `spec_fault`):
    /// a missing value and a missing key are told apart.
    pub open spec fn spec_message(&self) -> Seq<char> {
        if self.fields_fault(0) is Some {
            self.fields_message(0)
        } else if !self.any_included(Some(false), false) {
            "incomplete query: missing update value"@
        } else if self.attr.keyless is Some && self.any_included(Some(true), false) {
            "conflicting attributes: #[sqly(keyless)] with #[sqly(key)]\nhelp: remove #[sqly(keyless)]"@
        } else if self.attr.keyless is None && !self.any_included(Some(true), false) {
            "incomplete query: missing update key\nhelp: use #[sqly(keyless)] if intended"@
        } else {
            static_message(self.attr.dynamic)
        }
    }

    /// Checks the attributes: per field, `skip` excludes `key` and `update`, `key`
    /// excludes `update`, and `filter` needs `key`; some field is a value; `keyless`
    /// is needed exactly when no field is a key; `dynamic` is needed exactly when a
    /// field is optional.
    pub fn init(&self) -> (r: Result<(), Error>)
        ensures
            r is Ok <==> self.spec_fault() is None,
            r matches Err(e) ==> Some(e.fault) == self.spec_fault() && e.message@ == self.spec_message(),
    {
        let mut i: usize = 0;
        while i < self.fields.len()
            invariant
                i <= self.fields@.len(),
                self.fields_fault(0) == self.fields_fault(i as int),
                self.fields_message(0) == self.fields_message(i as int),
            decreases self.fields@.len() - i,
        {
            let a = &self.fields[i].attr;
            if let Some(skip) = a.skip {
                if a.key.is_some() {
                    return Err(Error::new(skip, Fault::Conflicting, "conflicting attributes: #[sqly(skip, key)]".to_owned()));
                }
                if a.update.len() > 0 {
                    return Err(Error::new(skip, Fault::Conflicting, "conflicting attributes: #[sqly(skip, update)]".to_owned()));
                }
            }
            if let Some(key) = a.key {
                if a.update.len() > 0 {
                    return Err(Error::new(key, Fault::Conflicting, "conflicting attributes: #[sqly(key, update)]".to_owned()));
                }
            } else if let Some(span) = first_span(&a.filter) {
                return Err(Error::new(span, Fault::Unused, "unused attribute: requires #[sqly(key)]".to_owned()));
            }
            i = i + 1;
        }
        if !self.find_included(Some(false), false) {
            return Err(Error::new(call_site(), Fault::Incomplete, "incomplete query: missing update value".to_owned()));
        }
        let keys = self.find_included(Some(true), false);
        if let Some(span) = self.attr.keyless {
            if keys {
                return Err(Error::new(span, Fault::Conflicting,
                    "conflicting attributes: #[sqly(keyless)] with #[sqly(key)]\nhelp: remove #[sqly(keyless)]".to_owned()));
            }
        } else if !keys {
            return Err(Error::new(call_site(), Fault::Incomplete,
                "incomplete query: missing update key\nhelp: use #[sqly(keyless)] if intended".to_owned()));
        }
        self.check_fields_static()
    }
}

} // verus!
