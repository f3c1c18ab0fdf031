use vstd::prelude::*;

verus! {

/// Whether `c` may continue an identifier (the Unicode `XID_Continue` property),
/// as `unicode_ident::is_xid_continue` answers it.
pub uninterp spec fn xid_continue(c: char) -> bool;

/// Whether `c` may start an identifier (the Unicode `XID_Start` property), as
/// `unicode_ident::is_xid_start` answers it.
pub uninterp spec fn xid_start(c: char) -> bool;

/// An ASCII letter.
pub open spec fn ascii_letter(c: char) -> bool {
    ('a' <= c && c <= 'z') || ('A' <= c && c <= 'Z')
}

/// An ASCII letter, digit or `_`.
pub open spec fn ascii_word(c: char) -> bool {
    ascii_letter(c) || ('0' <= c && c <= '9') || c == '_'
}

/// Whether every character is ASCII.
pub open spec fn all_ascii(s: Seq<char>) -> bool {
    forall|k: int| 0 <= k < s.len() ==> (s[k] as u32) < 128
}

/// Calls `unicode_ident::is_xid_continue`; its answer is the one named `xid_continue`.
/// Of ASCII characters it holds for letters, digits and `_` alone (the ASCII table
/// of the crate); nothing more is claimed of the Unicode tables behind it.
#[verifier::external_body]
pub(crate) fn is_xid_continue(c: char) -> (b: bool)
    ensures
        b == xid_continue(c),
        (c as u32) < 128 ==> b == ascii_word(c),
{
    unicode_ident::is_xid_continue(c)
}

/// Calls `unicode_ident::is_xid_start`; its answer is the one named `xid_start`.
/// Of ASCII characters it holds for letters alone; nothing more is claimed of
/// the Unicode tables behind it.
#[verifier::external_body]
pub(crate) fn is_xid_start(c: char) -> (b: bool)
    ensures
        b == xid_start(c),
        (c as u32) < 128 ==> b == ascii_letter(c),
{
    unicode_ident::is_xid_start(c)
}

/// For ASCII `s`: the identifier that `syn::parse_str::<syn::Ident>` reads from the
/// whole of `s` (surrounding whitespace and comments allowed, keywords refused),
/// with a leading `r#` taken off as `syn::ext::IdentExt::unraw` does; `None` where
/// parsing fails. Only ASCII text is given this name: of other text the answer
/// depends on the process (inside a macro the compiler's lexer normalises
/// identifiers to NFC, outside it proc-macro2's own parser does not).
pub uninterp spec fn parsed_ident(s: Seq<char>) -> Option<Seq<char>>;

/// Calls `syn::parse_str::<syn::Ident>` and `IdentExt::unraw` on the result. For
/// ASCII text the answer is the one named `parsed_ident`; of other text nothing
/// is claimed, and syn's grammar is not restated.
#[verifier::external_body]
pub(crate) fn parse_ident(s: &str) -> (r: Option<String>)
    ensures
        all_ascii(s@) ==> (r matches Some(id) ==> parsed_ident(s@) == Some(id@)),
        all_ascii(s@) ==> (r is None ==> parsed_ident(s@) is None),
{
    match syn::parse_str::<syn::Ident>(s) {
        Ok(ident) => Some(syn::ext::IdentExt::unraw(&ident).to_string()),
        Err(_) => None,
    }
}

/// `s` without leading `White_Space` characters.
pub open spec fn white_trim_start(s: Seq<char>) -> Seq<char>
    decreases s.len(),
{
    if s.len() > 0 && white_space(s[0]) { white_trim_start(s.drop_first()) } else { s }
}

/// `s` without trailing `White_Space` characters.
pub open spec fn white_trim_end(s: Seq<char>) -> Seq<char>
    decreases s.len(),
{
    if s.len() > 0 && white_space(s.last()) { white_trim_end(s.drop_last()) } else { s }
}

/// `s` without a leading `r#`.
pub open spec fn unraw_text(s: Seq<char>) -> Seq<char> {
    if s.len() >= 2 && s[0] == 'r' && s[1] == '#' { s.skip(2) } else { s }
}

/// The identifier that a placeholder name with non-ASCII characters reads as:
/// without surrounding whitespace and a leading `r#`, an `XID_Start` character or
/// `_` followed by `XID_Continue` characters, taken as written.
pub open spec fn own_ident(s: Seq<char>) -> Option<Seq<char>> {
    let c = unraw_text(white_trim_end(white_trim_start(s)));
    if c.len() > 0 && (xid_start(c[0]) || c[0] == '_') && (forall|k: int| 1 <= k < c.len() ==> xid_continue(#[trigger] c[k])) {
        Some(c)
    } else {
        None
    }
}

/// The identifier a placeholder name stands for: as syn reads it where the name
/// is ASCII; else as `own_ident` reads it.
pub open spec fn resolved_ident(s: Seq<char>) -> Option<Seq<char>> {
    if all_ascii(s) { parsed_ident(s) } else { own_ident(s) }
}

/// The identifier a placeholder name stands for (see `resolved_ident`).
pub fn resolve_ident(s: &str) -> (r: Option<String>)
    ensures
        match resolved_ident(s@) {
            Some(id) => r matches Some(x) && x@ == id,
            None => r is None,
        },
{
    let v = crate::text::chars_of(s);
    let mut i: usize = 0;
    let mut ascii = true;
    while i < v.len()
        invariant
            i <= v@.len(),
            v@ == s@,
            ascii == (forall|k: int| 0 <= k < i ==> (v@[k] as u32) < 128),
        decreases v@.len() - i,
    {
        if (v[i] as u32) >= 128 {
            ascii = false;
        }
        i = i + 1;
    }
    if ascii {
        return parse_ident(s);
    }
    let mut a: usize = 0;
    assert(v@.subrange(0, v@.len() as int) =~= v@);
    while a < v.len() && is_whitespace(v[a])
        invariant
            a <= v@.len(),
            white_trim_start(v@) == white_trim_start(v@.subrange(a as int, v@.len() as int)),
        decreases v@.len() - a,
    {
        assert(v@.subrange(a as int, v@.len() as int).drop_first() =~= v@.subrange(a + 1, v@.len() as int));
        a = a + 1;
    }
    assert(white_trim_start(v@.subrange(a as int, v@.len() as int)) == v@.subrange(a as int, v@.len() as int));
    let mut b: usize = v.len();
    while b > a && is_whitespace(v[b - 1])
        invariant
            a <= b <= v@.len(),
            white_trim_end(white_trim_start(v@)) == white_trim_end(v@.subrange(a as int, b as int)),
        decreases b,
    {
        assert(v@.subrange(a as int, b as int).drop_last() =~= v@.subrange(a as int, b - 1));
        b = b - 1;
    }
    assert(white_trim_end(v@.subrange(a as int, b as int)) == v@.subrange(a as int, b as int));
    if b - a >= 2 && v[a] == 'r' && v[a + 1] == '#' {
        a = a + 2;
    }
    let ghost c = unraw_text(white_trim_end(white_trim_start(v@)));
    assert(c =~= v@.subrange(a as int, b as int));
    if a >= b {
        return None;
    }
    if !(is_xid_start(v[a]) || v[a] == '_') {
        return None;
    }
    let mut k: usize = a + 1;
    while k < b
        invariant
            a < k <= b <= v@.len(),
            c == v@.subrange(a as int, b as int),
            v@ == s@,
            !all_ascii(s@),
            c == unraw_text(white_trim_end(white_trim_start(s@))),
            forall|j: int| 1 <= j < k - a ==> xid_continue(#[trigger] c[j]),
        decreases b - k,
    {
        if !is_xid_continue(v[k]) {
            assert(c[k - a] == v@[k as int]);
            return None;
        }
        assert(c[k - a] == v@[k as int]);
        k = k + 1;
    }
    let mut out = String::new();
    crate::text::push_chars(&mut out, &v.as_slice()[a..b]);
    proof {
        assert(v@.subrange(a as int, b as int) == c);
    }
    Some(out)
}

/// The Unicode `White_Space` property, which `char::is_whitespace` tests.
pub open spec fn white_space(c: char) -> bool {
    ||| '\t' <= c <= '\r'
    ||| c == ' '
    ||| c == '\u{85}'
    ||| c == '\u{A0}'
    ||| c == '\u{1680}'
    ||| '\u{2000}' <= c <= '\u{200A}'
    ||| c == '\u{2028}'
    ||| c == '\u{2029}'
    ||| c == '\u{202F}'
    ||| c == '\u{205F}'
    ||| c == '\u{3000}'
}

/// Tests the `White_Space` property.
pub fn is_whitespace(c: char) -> (b: bool)
    ensures
        b == white_space(c),
{
    ('\t' <= c && c <= '\r') || c == ' ' || c == '\u{85}' || c == '\u{A0}' || c == '\u{1680}'
        || ('\u{2000}' <= c && c <= '\u{200A}') || c == '\u{2028}' || c == '\u{2029}'
        || c == '\u{202F}' || c == '\u{205F}' || c == '\u{3000}'
}

/// The ASCII whitespace that `char::is_ascii_whitespace` tests (no vertical tab).
pub open spec fn ascii_white(c: char) -> bool {
    c == ' ' || c == '\t' || c == '\n' || c == '\u{C}' || c == '\r'
}

/// Tests for ASCII whitespace.
pub fn is_ascii_whitespace(c: char) -> (b: bool)
    ensures
        b == ascii_white(c),
{
    c == ' ' || c == '\t' || c == '\n' || c == '\u{C}' || c == '\r'
}

} // verus!
