use vstd::prelude::*;

use crate::mapping::{Mapping, map_has};

verus! {

/// The minimal HTML entity for `c` — one of `"`, `&`, `'`, `<`, `>` — or
/// `c` itself.
pub open spec fn min_entity(c: char) -> Seq<char> {
    if c == '"' {
        "&quot;"@
    } else if c == '&' {
        "&amp;"@
    } else if c == '\'' {
        "&#x27;"@
    } else if c == '<' {
        "&lt;"@
    } else if c == '>' {
        "&gt;"@
    } else {
        seq![c]
    }
}

/// `s` with each character replaced by its minimal HTML entity, if it has
/// one.
pub open spec fn escaped_minimal(s: Seq<char>) -> Seq<char>
    decreases s.len(),
{
    if s.len() == 0 {
        Seq::empty()
    } else {
        min_entity(s[0]) + escaped_minimal(s.skip(1))
    }
}

/// `c` is an ASCII alphanumeric character.
pub open spec fn is_alnum(c: char) -> bool {
    (97 <= c as int && c as int <= 122) || (65 <= c as int && c as int <= 90) || (48 <= c as int
        && c as int <= 57)
}

/// The uppercase hexadecimal digit character for `d` (meaningful for
/// `0 <= d <= 15`).
pub open spec fn hex_digit(d: int) -> char {
    if d < 10 {
        ((48 + d) as u8) as char
    } else {
        ((55 + d) as u8) as char
    }
}

/// The attribute-safe encoding of `c`: its minimal entity if it has one,
/// a two-digit hex entity for every other Latin-1 character that is not
/// ASCII alphanumeric, and `c` itself otherwise.
pub open spec fn attr_entity(c: char) -> Seq<char> {
    let b = c as int;
    if c == '"' || c == '&' || c == '\'' || c == '<' || c == '>' {
        min_entity(c)
    } else if b < 256 && (b > 127 || !is_alnum(c)) {
        "&#x"@ + seq![hex_digit(b / 16), hex_digit(b % 16)] + ";"@
    } else {
        seq![c]
    }
}

/// `s` with each character attribute-safely encoded.
pub open spec fn escaped_attribute(s: Seq<char>) -> Seq<char>
    decreases s.len(),
{
    if s.len() == 0 {
        Seq::empty()
    } else {
        attr_entity(s[0]) + escaped_attribute(s.skip(1))
    }
}

/// Relies on `htmlescape::encode_minimal`: each character is replaced by its
/// minimal HTML entity — for `"`, `&`, `'`, `<` and `>` — and every other
/// character is kept as it is.
#[verifier::external_body]
pub(crate) fn encode_minimal_str(s: &str) -> (r: String)
    ensures
        r@ == escaped_minimal(s@),
{
    htmlescape::encode_minimal(s)
}

/// Relies on `htmlescape::encode_attribute`: the five minimal entities are
/// used, and every other Latin-1 character that is not ASCII alphanumeric
/// becomes a two-digit uppercase hex entity.
#[verifier::external_body]
pub(crate) fn encode_attribute_str(s: &str) -> (r: String)
    ensures
        r@ == escaped_attribute(s@),
{
    htmlescape::encode_attribute(s)
}

impl Mapping {
    /// Bind `key` to `value` with the value minimally HTML-escaped, as for
    /// text content.
    pub fn insert_html(&mut self, key: &str, value: &str)
        requires
            old(self).wf(),
        ensures
            final (self).wf(),
            map_has(old(self)@, key@) ==> exists|j: int|
                0 <= j < old(self)@.len() && old(self)@[j].0 == key@ && final (self)@ == old(
                    self,
                )@.update(j, (key@, escaped_minimal(value@))),
            !map_has(old(self)@, key@) ==> final (self)@ == old(self)@.push(
                (key@, escaped_minimal(value@)),
            ),
    {
        let escaped = encode_minimal_str(value);
        self.insert(key, escaped.as_str());
    }

    /// Bind `key` to `value` with the value attribute-safely HTML-escaped,
    /// as for attribute values.
    pub fn insert_html_strong(&mut self, key: &str, value: &str)
        requires
            old(self).wf(),
        ensures
            final (self).wf(),
            map_has(old(self)@, key@) ==> exists|j: int|
                0 <= j < old(self)@.len() && old(self)@[j].0 == key@ && final (self)@ == old(
                    self,
                )@.update(j, (key@, escaped_attribute(value@))),
            !map_has(old(self)@, key@) ==> final (self)@ == old(self)@.push(
                (key@, escaped_attribute(value@)),
            ),
    {
        let escaped = encode_attribute_str(value);
        self.insert(key, escaped.as_str());
    }
}

} // verus!
