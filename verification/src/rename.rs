use vstd::prelude::*;
use crate::attrs::Rename;
use heck::{
    ToKebabCase, ToLowerCamelCase, ToShoutyKebabCase, ToShoutySnakeCase, ToSnakeCase,
    ToUpperCamelCase,
};

verus! {

/// What `str::to_lowercase` returns for `s`.
pub uninterp spec fn lowercase(s: Seq<char>) -> Seq<char>;

/// What `str::to_uppercase` returns for `s`.
pub uninterp spec fn uppercase(s: Seq<char>) -> Seq<char>;

/// What `heck::ToLowerCamelCase::to_lower_camel_case` returns for `s`.
pub uninterp spec fn lower_camel(s: Seq<char>) -> Seq<char>;

/// What `heck::ToUpperCamelCase::to_upper_camel_case` returns for `s`.
pub uninterp spec fn upper_camel(s: Seq<char>) -> Seq<char>;

/// What `heck::ToSnakeCase::to_snake_case` returns for `s`.
pub uninterp spec fn snake(s: Seq<char>) -> Seq<char>;

/// What `heck::ToKebabCase::to_kebab_case` returns for `s`.
pub uninterp spec fn kebab(s: Seq<char>) -> Seq<char>;

/// What `heck::ToShoutySnakeCase::to_shouty_snake_case` returns for `s`.
pub uninterp spec fn shouty_snake(s: Seq<char>) -> Seq<char>;

/// What `heck::ToShoutyKebabCase::to_shouty_kebab_case` returns for `s`.
pub uninterp spec fn shouty_kebab(s: Seq<char>) -> Seq<char>;

/// Calls `str::to_lowercase`; its result is the one named `lowercase`.
#[verifier::external_body]
fn to_lowercase(s: &str) -> (r: String)
    ensures
        r@ == lowercase(s@),
{
    s.to_lowercase()
}

/// Calls `str::to_uppercase`; its result is the one named `uppercase`.
#[verifier::external_body]
fn to_uppercase(s: &str) -> (r: String)
    ensures
        r@ == uppercase(s@),
{
    s.to_uppercase()
}

/// Calls `heck`'s `to_lower_camel_case`; its result is the one named `lower_camel`.
#[verifier::external_body]
fn to_lower_camel(s: &str) -> (r: String)
    ensures
        r@ == lower_camel(s@),
{
    s.to_lower_camel_case()
}

/// Calls `heck`'s `to_upper_camel_case`; its result is the one named `upper_camel`.
#[verifier::external_body]
fn to_upper_camel(s: &str) -> (r: String)
    ensures
        r@ == upper_camel(s@),
{
    s.to_upper_camel_case()
}

/// Calls `heck`'s `to_snake_case`; its result is the one named `snake`.
#[verifier::external_body]
pub(crate) fn to_snake(s: &str) -> (r: String)
    ensures
        r@ == snake(s@),
{
    s.to_snake_case()
}

/// Calls `heck`'s `to_kebab_case`; its result is the one named `kebab`.
#[verifier::external_body]
fn to_kebab(s: &str) -> (r: String)
    ensures
        r@ == kebab(s@),
{
    s.to_kebab_case()
}

/// Calls `heck`'s `to_shouty_snake_case`; its result is the one named `shouty_snake`.
#[verifier::external_body]
fn to_shouty_snake(s: &str) -> (r: String)
    ensures
        r@ == shouty_snake(s@),
{
    s.to_shouty_snake_case()
}

/// Calls `heck`'s `to_shouty_kebab_case`; its result is the one named `shouty_kebab`.
#[verifier::external_body]
fn to_shouty_kebab(s: &str) -> (r: String)
    ensures
        r@ == shouty_kebab(s@),
{
    s.to_shouty_kebab_case()
}

/// A name after applying a case convention.
pub open spec fn renamed(r: Rename, s: Seq<char>) -> Seq<char> {
    match r {
        Rename::Unchanged => s,
        Rename::LowerCase => lowercase(s),
        Rename::UpperCase => uppercase(s),
        Rename::CamelCase => lower_camel(s),
        Rename::PascalCase => upper_camel(s),
        Rename::SnakeCase => snake(s),
        Rename::KebabCase => kebab(s),
        Rename::UpperSnakeCase => shouty_snake(s),
        Rename::UpperKebabCase => shouty_kebab(s),
    }
}

impl Rename {
    /// Applies this case convention to a name.
    pub fn rename(&self, s: &str) -> (r: String)
        ensures
            r@ == renamed(*self, s@),
    {
        match self {
            Rename::Unchanged => s.to_owned(),
            Rename::LowerCase => to_lowercase(s),
            Rename::UpperCase => to_uppercase(s),
            Rename::CamelCase => to_lower_camel(s),
            Rename::PascalCase => to_upper_camel(s),
            Rename::SnakeCase => to_snake(s),
            Rename::KebabCase => to_kebab(s),
            Rename::UpperSnakeCase => to_shouty_snake(s),
            Rename::UpperKebabCase => to_shouty_kebab(s),
        }
    }
}

} // verus!
