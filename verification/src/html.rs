use vstd::prelude::*;

use crate::escape::{
    escaped_attribute, escaped_minimal, encode_attribute_str, encode_minimal_str,
};
use crate::mapping::{Mapping, map_has, map_wf};
use crate::template::{
    Template, assembled, extras_upto, missings_upto, render_errors, spans_of, spec_parse,
};

verus! {

/// The spans that parsing `s` finds (meaningful when parsing succeeds).
pub open spec fn parsed_spans(s: Seq<char>) -> Seq<(int, int)> {
    spec_parse(s)->Ok_0
}

/// `pairs` with each value rewritten by `f`, keys untouched.
pub open spec fn map_vals(
    pairs: Seq<(Seq<char>, Seq<char>)>,
    f: spec_fn(Seq<char>) -> Seq<char>,
) -> Seq<(Seq<char>, Seq<char>)> {
    Seq::new(pairs.len(), |i: int| (pairs[i].0, f(pairs[i].1)))
}

/// The mapping's pairs with every value minimally HTML-escaped.
pub open spec fn min_escaped_vals(pairs: Seq<(Seq<char>, Seq<char>)>) -> Seq<
    (Seq<char>, Seq<char>),
> {
    map_vals(pairs, |v: Seq<char>| escaped_minimal(v))
}

/// The mapping's pairs with every value attribute-safely HTML-escaped.
pub open spec fn attr_escaped_vals(pairs: Seq<(Seq<char>, Seq<char>)>) -> Seq<
    (Seq<char>, Seq<char>),
> {
    map_vals(pairs, |v: Seq<char>| escaped_attribute(v))
}

proof fn lemma_map_has_map_vals(
    pairs: Seq<(Seq<char>, Seq<char>)>,
    f: spec_fn(Seq<char>) -> Seq<char>,
    k: Seq<char>,
)
    ensures
        map_has(map_vals(pairs, f), k) == map_has(pairs, k),
{
    if map_has(pairs, k) {
        let w = choose|i: int| 0 <= i < pairs.len() && pairs[i].0 == k;
        assert(map_vals(pairs, f)[w].0 == k);
    }
    if map_has(map_vals(pairs, f), k) {
        let w = choose|i: int| 0 <= i < map_vals(pairs, f).len() && map_vals(pairs, f)[i].0 == k;
        assert(pairs[w].0 == k);
    }
}

proof fn lemma_extras_map_vals(
    s: Seq<char>,
    spans: Seq<(int, int)>,
    pairs: Seq<(Seq<char>, Seq<char>)>,
    f: spec_fn(Seq<char>) -> Seq<char>,
    j: int,
)
    requires
        j <= pairs.len(),
    ensures
        extras_upto(s, spans, map_vals(pairs, f), j) == extras_upto(s, spans, pairs, j),
    decreases j,
{
    if j > 0 {
        lemma_extras_map_vals(s, spans, pairs, f, j - 1);
        assert(map_vals(pairs, f)[j - 1].0 == pairs[j - 1].0);
        assert(extras_upto(s, spans, map_vals(pairs, f), j) =~= extras_upto(s, spans, pairs, j));
    }
}

proof fn lemma_missings_map_vals(
    s: Seq<char>,
    spans: Seq<(int, int)>,
    pairs: Seq<(Seq<char>, Seq<char>)>,
    f: spec_fn(Seq<char>) -> Seq<char>,
    j: int,
)
    ensures
        missings_upto(s, spans, map_vals(pairs, f), j) == missings_upto(s, spans, pairs, j),
    decreases j,
{
    if j > 0 {
        lemma_missings_map_vals(s, spans, pairs, f, j - 1);
        lemma_map_has_map_vals(pairs, f, crate::template::span_key(s, spans[j - 1]));
        assert(missings_upto(s, spans, map_vals(pairs, f), j) =~= missings_upto(
            s,
            spans,
            pairs,
            j,
        ));
    }
}

/// Escaping values never changes which errors a render reports: the error
/// set depends on the keys alone.
proof fn lemma_render_errors_map_vals(
    s: Seq<char>,
    spans: Seq<(int, int)>,
    pairs: Seq<(Seq<char>, Seq<char>)>,
    f: spec_fn(Seq<char>) -> Seq<char>,
)
    ensures
        render_errors(s, spans, map_vals(pairs, f)) == render_errors(s, spans, pairs),
{
    lemma_extras_map_vals(s, spans, pairs, f, pairs.len() as int);
    lemma_missings_map_vals(s, spans, pairs, f, spans.len() as int);
}

/// Build the mapping whose values are `lookup`'s, each rewritten by the
/// escape that `strong` picks.
fn escape_mapping(lookup: &Mapping, strong: bool) -> (r: Mapping)
    requires
        lookup.wf(),
    ensures
        r@ == if strong {
            attr_escaped_vals(lookup@)
        } else {
            min_escaped_vals(lookup@)
        },
        r.wf(),
{
    let ghost target = if strong {
        attr_escaped_vals(lookup@)
    } else {
        min_escaped_vals(lookup@)
    };
    let mut pairs: Vec<(String, String)> = Vec::new();
    let n = lookup.pairs.len();
    let mut i: usize = 0;
    while i < n
        invariant
            lookup.wf(),
            n == lookup.pairs.len(),
            i <= n,
            target == if strong {
                attr_escaped_vals(lookup@)
            } else {
                min_escaped_vals(lookup@)
            },
            pairs@.len() == i,
            forall|j: int|
                0 <= j < i ==> ((#[trigger] pairs@[j]).0@, pairs@[j].1@) == target[j],
        decreases n - i,
    {
        let key = lookup.pairs[i].0.clone();
        let value = if strong {
            encode_attribute_str(lookup.pairs[i].1.as_str())
        } else {
            encode_minimal_str(lookup.pairs[i].1.as_str())
        };
        pairs.push((key, value));
        i += 1;
    }
    let r = Mapping { pairs };
    proof {
        assert(r@ =~= target);
        assert(map_wf(r@)) by {
            assert forall|a: int, b: int| 0 <= a < b < r@.len() implies (#[trigger] r@[a]).0 != (
            #[trigger] r@[b]).0 by {
                assert(lookup@[a].0 != lookup@[b].0);
            }
        }
    }
    r
}

/// Parse `template_str` and substitute `lookup` into it; the caller owes a
/// template that parses and a mapping whose keys exactly cover the
/// placeholders.
fn render_parsed(template_str: &str, lookup: &Mapping) -> (r: String)
    requires
        lookup.wf(),
        spec_parse(template_str@) is Ok,
        render_errors(template_str@, parsed_spans(template_str@), lookup@).len() == 0,
    ensures
        r@ == assembled(template_str@, parsed_spans(template_str@), lookup@),
{
    let t = match Template::new(template_str) {
        Ok(t) => t,
        Err(_) => {
            proof {
                assert(false);
            }
            vstd::pervasive::unreached()
        },
    };
    proof {
        assert(spans_of(t.replaces@) == parsed_spans(template_str@));
    }
    match t.render(lookup) {
        Ok(out) => out,
        Err(_) => {
            proof {
                assert(false);
            }
            vstd::pervasive::unreached()
        },
    }
}

/// Render the template with every value of the lookup minimally
/// HTML-escaped; the caller owes a template that parses and a lookup whose
/// keys exactly cover the placeholders.
pub fn render_template(template_str: &str, lookup: &Mapping) -> (r: String)
    requires
        lookup.wf(),
        spec_parse(template_str@) is Ok,
        render_errors(template_str@, parsed_spans(template_str@), lookup@).len() == 0,
    ensures
        r@ == assembled(template_str@, parsed_spans(template_str@), min_escaped_vals(lookup@)),
{
    let escaped = escape_mapping(lookup, false);
    proof {
        lemma_render_errors_map_vals(
            template_str@,
            parsed_spans(template_str@),
            lookup@,
            |v: Seq<char>| escaped_minimal(v),
        );
    }
    render_parsed(template_str, &escaped)
}

/// Render the template with every value of the lookup attribute-safely
/// HTML-escaped; the caller owes a template that parses and a lookup whose
/// keys exactly cover the placeholders.
pub fn render_template_strong(template_str: &str, lookup: &Mapping) -> (r: String)
    requires
        lookup.wf(),
        spec_parse(template_str@) is Ok,
        render_errors(template_str@, parsed_spans(template_str@), lookup@).len() == 0,
    ensures
        r@ == assembled(template_str@, parsed_spans(template_str@), attr_escaped_vals(lookup@)),
{
    let escaped = escape_mapping(lookup, true);
    proof {
        lemma_render_errors_map_vals(
            template_str@,
            parsed_spans(template_str@),
            lookup@,
            |v: Seq<char>| escaped_attribute(v),
        );
    }
    render_parsed(template_str, &escaped)
}

/// Render the template with the lookup's values substituted as they are, no
/// HTML-escaping; the caller owes a template that parses and a lookup whose
/// keys exactly cover the placeholders.
pub fn render_template_unsafe(template_str: &str, lookup: &Mapping) -> (r: String)
    requires
        lookup.wf(),
        spec_parse(template_str@) is Ok,
        render_errors(template_str@, parsed_spans(template_str@), lookup@).len() == 0,
    ensures
        r@ == assembled(template_str@, parsed_spans(template_str@), lookup@),
{
    render_parsed(template_str, lookup)
}

} // verus!
