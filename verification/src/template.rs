use vstd::prelude::*;

use crate::errors::{Error, Errors, ErrorView, errors_view};
use crate::mapping::{Mapping, map_has, map_val};

verus! {

// ---------------------------------------------------------------------------
// The parse model: where the delimiters stand and what one scan finds.
// ---------------------------------------------------------------------------
/// The two-character opening delimiter `${` starts at offset `i` of `s`.
pub open spec fn is_open_at(s: Seq<char>, i: int) -> bool {
    0 <= i && i + 1 < s.len() && s[i] == '$' && s[i + 1] == '{'
}

/// The closing delimiter `}` stands at offset `i` of `s`.
pub open spec fn is_close_at(s: Seq<char>, i: int) -> bool {
    0 <= i < s.len() && s[i] == '}'
}

/// Offset of the first opening delimiter at or after `from`, if any.
pub open spec fn find_open_from(s: Seq<char>, from: int) -> Option<int>
    decreases s.len() - from,
{
    if from + 1 >= s.len() {
        None
    } else if is_open_at(s, from) {
        Some(from)
    } else {
        find_open_from(s, from + 1)
    }
}

/// Offset of the first closing delimiter at or after `from`, if any.
pub open spec fn find_close_from(s: Seq<char>, from: int) -> Option<int>
    decreases s.len() - from,
{
    if from >= s.len() {
        None
    } else if is_close_at(s, from) {
        Some(from)
    } else {
        find_close_from(s, from + 1)
    }
}

pub proof fn lemma_find_open_from_props(s: Seq<char>, from: int)
    ensures
        match find_open_from(s, from) {
            Some(i) => from <= i && is_open_at(s, i) && forall|j: int|
                from <= j < i ==> !is_open_at(s, j),
            None => forall|j: int| j >= from ==> !is_open_at(s, j),
        },
    decreases s.len() - from,
{
    if from + 1 >= s.len() {
    } else if is_open_at(s, from) {
    } else {
        lemma_find_open_from_props(s, from + 1);
    }
}

pub proof fn lemma_find_close_from_props(s: Seq<char>, from: int)
    ensures
        match find_close_from(s, from) {
            Some(i) => from <= i && is_close_at(s, i) && forall|j: int|
                from <= j < i ==> !is_close_at(s, j),
            None => forall|j: int| j >= from ==> !is_close_at(s, j),
        },
    decreases s.len() - from,
{
    if from >= s.len() {
    } else if is_close_at(s, from) {
    } else {
        lemma_find_close_from_props(s, from + 1);
    }
}

/// One left-to-right scan of `s` starting at `cursor`: the placeholder spans
/// found, or the offset of an opening delimiter that is never closed.  A span
/// `(start, end)` runs from the `$` of the opening delimiter to just past the
/// matching `}`.
pub open spec fn scan_from(s: Seq<char>, cursor: int) -> Result<Seq<(int, int)>, int>
    decreases s.len() - cursor,
    via scan_from_decreases
{
    if cursor >= s.len() {
        Ok(Seq::empty())
    } else {
        match find_open_from(s, cursor) {
            None => Ok(Seq::empty()),
            Some(start) => match find_close_from(s, start + 2) {
                None => Err(start),
                Some(close) => match scan_from(s, close + 1) {
                    Ok(rest) => Ok(seq![(start, close + 1)] + rest),
                    Err(off) => Err(off),
                },
            },
        }
    }
}

#[via_fn]
proof fn scan_from_decreases(s: Seq<char>, cursor: int) {
    lemma_find_open_from_props(s, cursor);
    if cursor < s.len() {
        match find_open_from(s, cursor) {
            None => {},
            Some(start) => {
                lemma_find_close_from_props(s, start + 2);
            },
        }
    }
}

/// What parsing the whole of `s` yields: the placeholder spans in order of
/// occurrence, or the offset reported by `Error::Unclosed`.
pub open spec fn spec_parse(s: Seq<char>) -> Result<Seq<(int, int)>, int> {
    scan_from(s, 0)
}

// ---------------------------------------------------------------------------
// Well-formed spans and the text they delimit.
// ---------------------------------------------------------------------------
/// The key name of the placeholder with span `sp`: the text strictly between
/// the opening `${` and the closing `}`.
pub open spec fn span_key(s: Seq<char>, sp: (int, int)) -> Seq<char> {
    s.subrange(sp.0 + 2, sp.1 - 1)
}

/// `sp` is a plausible placeholder span of `s`: room for `${` and `}`, and
/// inside the text.
pub open spec fn span_wf(s: Seq<char>, sp: (int, int)) -> bool {
    0 <= sp.0 && sp.0 + 3 <= sp.1 && sp.1 <= s.len()
}

/// Every span is plausible and they run strictly left to right, without
/// overlap.
pub open spec fn spans_wf(s: Seq<char>, spans: Seq<(int, int)>) -> bool {
    (forall|i: int| 0 <= i < spans.len() ==> span_wf(s, #[trigger] spans[i])) && (forall|i: int|
        0 < i < spans.len() ==> (#[trigger] spans[i]).0 >= spans[i - 1].1)
}

/// The spans of `spans_of` as mathematical integers.
pub open spec fn spans_of(v: Seq<(usize, usize)>) -> Seq<(int, int)> {
    Seq::new(v.len(), |i: int| (v[i].0 as int, v[i].1 as int))
}

proof fn lemma_scan_from_wf(s: Seq<char>, cursor: int)
    ensures
        scan_from(s, cursor) matches Ok(spans) ==> spans_wf(s, spans) && (spans.len() > 0
            ==> spans[0].0 >= cursor),
    decreases s.len() - cursor,
{
    if cursor >= s.len() {
    } else {
        lemma_find_open_from_props(s, cursor);
        match find_open_from(s, cursor) {
            None => {},
            Some(start) => {
                lemma_find_close_from_props(s, start + 2);
                match find_close_from(s, start + 2) {
                    None => {},
                    Some(close) => {
                        lemma_scan_from_wf(s, close + 1);
                        match scan_from(s, close + 1) {
                            Ok(rest) => {
                                let all = seq![(start, close + 1)] + rest;
                                assert forall|i: int| 0 <= i < all.len() implies span_wf(
                                    s,
                                    #[trigger] all[i],
                                ) by {
                                    if i > 0 {
                                        assert(all[i] == rest[i - 1]);
                                    }
                                }
                                assert forall|i: int| 0 < i < all.len() implies (
                                #[trigger] all[i]).0 >= all[i - 1].1 by {
                                    assert(all[i] == rest[i - 1]);
                                    if i > 1 {
                                        assert(all[i - 1] == rest[i - 2]);
                                    }
                                }
                            },
                            Err(_) => {},
                        }
                    },
                }
            },
        }
    }
}

// ---------------------------------------------------------------------------
// The parsed template.
// ---------------------------------------------------------------------------
/// A parsed template: the source text together with the spans of its
/// placeholders, in order of occurrence.
pub struct Template {
    /// The raw template text.
    pub template_str: String,
    /// The placeholder spans `(start, end)`: `start` is the offset of the
    /// `$` of the opening delimiter, `end` the offset just past the
    /// matching `}`.
    pub replaces: Vec<(usize, usize)>,
}

impl Template {
    /// The spans fit the source text and are exactly what one scan finds.
    pub open spec fn wf(&self) -> bool {
        spans_wf(self.template_str@, spans_of(self.replaces@))
    }

    /// Parse `template_str`: record every `${...}` placeholder, or report the
    /// offset of an opening delimiter that is never closed.
    pub fn new(template_str: &str) -> (r: Result<Template, Error>)
        ensures
            r matches Ok(t) ==> t.template_str@ == template_str@ && spec_parse(template_str@)
                == Ok::<_, int>(spans_of(t.replaces@)) && t.wf(),
            r matches Err(e) ==> e matches Error::Unclosed(u) && spec_parse(template_str@)
                == Err::<Seq<(int, int)>, int>(u as int),
            r is Ok <==> spec_parse(template_str@) is Ok,
    {
        let ghost s = template_str@;
        let n = template_str.unicode_len();
        let mut replaces: Vec<(usize, usize)> = Vec::new();
        let mut cursor: usize = 0;
        loop
            invariant
                s == template_str@,
                n == s.len(),
                cursor <= n,
                scan_prepend(spans_of(replaces@), scan_from(s, cursor as int)) == spec_parse(s),
            ensures
                spec_parse(s) == Ok::<_, int>(spans_of(replaces@)),
            decreases n - cursor,
        {
            if cursor >= n {
                proof {
                    assert(scan_from(s, cursor as int) == Ok::<_, int>(Seq::<(int, int)>::empty()));
                    assert(spans_of(replaces@) + Seq::<(int, int)>::empty() =~= spans_of(
                        replaces@,
                    ));
                }
                break ;
            }
            match find_open(template_str, cursor) {
                None => {
                    proof {
                        assert(scan_from(s, cursor as int) == Ok::<_, int>(
                            Seq::<(int, int)>::empty(),
                        ));
                        assert(spans_of(replaces@) + Seq::<(int, int)>::empty() =~= spans_of(
                            replaces@,
                        ));
                    }
                    break ;
                },
                Some(start) => {
                    proof {
                        lemma_find_open_from_props(s, cursor as int);
                    }
                    match find_close(template_str, start + 2) {
                        None => {
                            proof {
                                assert(scan_from(s, cursor as int) == Err::<Seq<(int, int)>, int>(
                                    start as int,
                                ));
                            }
                            return Err(Error::Unclosed(start));
                        },
                        Some(close) => {
                            proof {
                                lemma_find_close_from_props(s, start as int + 2);
                            }
                            let ghost before = spans_of(replaces@);
                            replaces.push((start, close + 1));
                            proof {
                                assert(spans_of(replaces@) =~= before + seq![
                                    (start as int, close as int + 1),
                                ]);
                                let rest_r = scan_from(s, close as int + 1);
                                match rest_r {
                                    Ok(rest) => {
                                        assert(scan_from(s, cursor as int) == Ok::<_, int>(
                                            seq![(start as int, close as int + 1)] + rest,
                                        ));
                                        assert(before + (seq![(start as int, close as int + 1)]
                                            + rest) =~= (before + seq![
                                            (start as int, close as int + 1),
                                        ]) + rest);
                                    },
                                    Err(_) => {},
                                }
                            }
                            cursor = close + 1;
                        },
                    }
                },
            }
        }
        let t = Template { template_str: template_str.to_owned(), replaces };
        proof {
            lemma_scan_from_wf(s, 0);
        }
        Ok(t)
    }
}

/// `prefix` glued onto the front of whatever spans `r` found.
pub open spec fn scan_prepend(prefix: Seq<(int, int)>, r: Result<Seq<(int, int)>, int>) -> Result<
    Seq<(int, int)>,
    int,
> {
    match r {
        Ok(spans) => Ok(prefix + spans),
        Err(off) => Err(off),
    }
}

/// Offset of the first opening delimiter of `s` at or after `from`, by a
/// linear scan.
fn find_open(s: &str, from: usize) -> (r: Option<usize>)
    requires
        from <= s@.len(),
    ensures
        match r {
            Some(i) => from <= i && find_open_from(s@, from as int) == Some(i as int),
            None => find_open_from(s@, from as int) is None,
        },
{
    let n = s.unicode_len();
    let mut i = from;
    loop
        invariant
            n == s@.len(),
            from <= i <= n,
            forall|j: int| from <= j < i ==> !is_open_at(s@, j),
        ensures
            (i + 1 < n && is_open_at(s@, i as int) && forall|j: int|
                from <= j < i ==> !is_open_at(s@, j)) || (i + 1 >= n && forall|j: int|
                j >= from ==> !is_open_at(s@, j)),
        decreases n - i,
    {
        if n - i <= 1 {
            proof {
                assert forall|j: int| j >= from implies !is_open_at(s@, j) by {
                    if j < i {
                    } else {
                        assert(j + 1 >= n);
                    }
                }
            }
            break ;
        }
        if s.get_char(i) == '$' && s.get_char(i + 1) == '{' {
            break ;
        }
        i += 1;
    }
    if n - i > 1 {
        proof {
            lemma_find_open_uniq(s@, from as int, i as int);
        }
        Some(i)
    } else {
        proof {
            lemma_find_open_from_props(s@, from as int);
        }
        None
    }
}

proof fn lemma_find_open_uniq(s: Seq<char>, from: int, i: int)
    requires
        from <= i,
        is_open_at(s, i),
        forall|j: int| from <= j < i ==> !is_open_at(s, j),
    ensures
        find_open_from(s, from) == Some(i),
    decreases i - from,
{
    if from == i {
    } else {
        lemma_find_open_uniq(s, from + 1, i);
    }
}

/// Offset of the first closing delimiter of `s` at or after `from`, by a
/// linear scan.
fn find_close(s: &str, from: usize) -> (r: Option<usize>)
    requires
        from <= s@.len(),
    ensures
        match r {
            Some(i) => from <= i && find_close_from(s@, from as int) == Some(i as int),
            None => find_close_from(s@, from as int) is None,
        },
{
    let n = s.unicode_len();
    let mut i = from;
    loop
        invariant
            n == s@.len(),
            from <= i <= n,
            forall|j: int| from <= j < i ==> !is_close_at(s@, j),
        ensures
            (i < n && is_close_at(s@, i as int) && forall|j: int|
                from <= j < i ==> !is_close_at(s@, j)) || (i >= n && forall|j: int|
                j >= from ==> !is_close_at(s@, j)),
        decreases n - i,
    {
        if i >= n {
            proof {
                assert forall|j: int| j >= from implies !is_close_at(s@, j) by {
                    if j < i {
                    } else {
                        assert(j >= n);
                    }
                }
            }
            break ;
        }
        if s.get_char(i) == '}' {
            break ;
        }
        i += 1;
    }
    if i < n {
        proof {
            lemma_find_close_uniq(s@, from as int, i as int);
        }
        Some(i)
    } else {
        proof {
            lemma_find_close_from_props(s@, from as int);
        }
        None
    }
}

proof fn lemma_find_close_uniq(s: Seq<char>, from: int, i: int)
    requires
        from <= i,
        is_close_at(s, i),
        forall|j: int| from <= j < i ==> !is_close_at(s, j),
    ensures
        find_close_from(s, from) == Some(i),
    decreases i - from,
{
    if from == i {
    } else {
        lemma_find_close_uniq(s, from + 1, i);
    }
}

// ---------------------------------------------------------------------------
// The render model: which errors one render attempt reports, and what text
// it assembles when there are none.
// ---------------------------------------------------------------------------
/// Some placeholder of the template uses the key `k`.
pub open spec fn key_used(s: Seq<char>, spans: Seq<(int, int)>, k: Seq<char>) -> bool {
    exists|i: int| 0 <= i < spans.len() && span_key(s, #[trigger] spans[i]) == k
}

/// The `Extra` errors gathered from the first `j` mapping pairs, in mapping
/// order: one for each key that no placeholder uses.
pub open spec fn extras_upto(
    s: Seq<char>,
    spans: Seq<(int, int)>,
    pairs: Seq<(Seq<char>, Seq<char>)>,
    j: int,
) -> Seq<ErrorView>
    decreases j,
{
    if j <= 0 {
        Seq::empty()
    } else {
        extras_upto(s, spans, pairs, j - 1) + if !key_used(s, spans, pairs[j - 1].0) {
            seq![ErrorView::Extra(pairs[j - 1].0)]
        } else {
            Seq::empty()
        }
    }
}

/// The `Missing` errors gathered from the first `j` placeholders, in template
/// order: one per occurrence whose key the mapping lacks, not deduplicated.
pub open spec fn missings_upto(
    s: Seq<char>,
    spans: Seq<(int, int)>,
    pairs: Seq<(Seq<char>, Seq<char>)>,
    j: int,
) -> Seq<ErrorView>
    decreases j,
{
    if j <= 0 {
        Seq::empty()
    } else {
        missings_upto(s, spans, pairs, j - 1) + if !map_has(pairs, span_key(s, spans[j - 1])) {
            seq![ErrorView::Missing(span_key(s, spans[j - 1]))]
        } else {
            Seq::empty()
        }
    }
}

/// Everything one render attempt reports: all `Extra` errors (in mapping
/// order), then all `Missing` errors (in template order).
pub open spec fn render_errors(
    s: Seq<char>,
    spans: Seq<(int, int)>,
    pairs: Seq<(Seq<char>, Seq<char>)>,
) -> Seq<ErrorView> {
    extras_upto(s, spans, pairs, pairs.len() as int) + missings_upto(
        s,
        spans,
        pairs,
        spans.len() as int,
    )
}

/// Where the literal text before placeholder `j` begins: just past the
/// previous placeholder, or the start of the template.
pub open spec fn prev_end(spans: Seq<(int, int)>, j: int) -> int {
    if j <= 0 {
        0
    } else {
        spans[j - 1].1
    }
}

/// The output assembled from the first `j` placeholders: for each, the
/// literal text before it and then the mapped value of its key.
pub open spec fn assembled_upto(
    s: Seq<char>,
    spans: Seq<(int, int)>,
    pairs: Seq<(Seq<char>, Seq<char>)>,
    j: int,
) -> Seq<char>
    decreases j,
{
    if j <= 0 {
        Seq::empty()
    } else {
        assembled_upto(s, spans, pairs, j - 1) + s.subrange(prev_end(spans, j - 1), spans[j - 1].0)
            + map_val(pairs, span_key(s, spans[j - 1]))
    }
}

/// The fully substituted output: every placeholder replaced by its mapped
/// value, and the trailing literal text kept.
pub open spec fn assembled(
    s: Seq<char>,
    spans: Seq<(int, int)>,
    pairs: Seq<(Seq<char>, Seq<char>)>,
) -> Seq<char> {
    assembled_upto(s, spans, pairs, spans.len() as int) + s.subrange(
        prev_end(spans, spans.len() as int),
        s.len() as int,
    )
}

/// Total length of the first `j` delimited spans.
pub open spec fn sum_span_lens(spans: Seq<(int, int)>, j: int) -> int
    decreases j,
{
    if j <= 0 {
        0
    } else {
        sum_span_lens(spans, j - 1) + spans[j - 1].1 - spans[j - 1].0
    }
}

/// Total length of the values substituted for the first `j` placeholders.
pub open spec fn sum_val_lens(
    s: Seq<char>,
    spans: Seq<(int, int)>,
    pairs: Seq<(Seq<char>, Seq<char>)>,
    j: int,
) -> int
    decreases j,
{
    if j <= 0 {
        0
    } else {
        sum_val_lens(s, spans, pairs, j - 1) + map_val(pairs, span_key(s, spans[j - 1])).len()
    }
}

proof fn lemma_missings_empty(
    s: Seq<char>,
    spans: Seq<(int, int)>,
    pairs: Seq<(Seq<char>, Seq<char>)>,
    j: int,
)
    requires
        missings_upto(s, spans, pairs, j).len() == 0,
    ensures
        forall|i: int| 0 <= i < j ==> map_has(pairs, span_key(s, #[trigger] spans[i])),
    decreases j,
{
    if j > 0 {
        lemma_missings_empty(s, spans, pairs, j - 1);
    }
}

proof fn lemma_assembled_upto_len(
    s: Seq<char>,
    spans: Seq<(int, int)>,
    pairs: Seq<(Seq<char>, Seq<char>)>,
    j: int,
)
    requires
        spans_wf(s, spans),
        0 <= j <= spans.len(),
    ensures
        assembled_upto(s, spans, pairs, j).len() == prev_end(spans, j) - sum_span_lens(spans, j)
            + sum_val_lens(s, spans, pairs, j),
    decreases j,
{
    if j > 0 {
        lemma_assembled_upto_len(s, spans, pairs, j - 1);
    }
}

/// Exact-length law: a successful render's output is as long as the source,
/// minus every delimited span, plus every substituted value.
pub proof fn lemma_exact_length(
    s: Seq<char>,
    spans: Seq<(int, int)>,
    pairs: Seq<(Seq<char>, Seq<char>)>,
)
    requires
        spans_wf(s, spans),
    ensures
        assembled(s, spans, pairs).len() == s.len() - sum_span_lens(spans, spans.len() as int)
            + sum_val_lens(s, spans, pairs, spans.len() as int),
{
    lemma_assembled_upto_len(s, spans, pairs, spans.len() as int);
}

/// Round-trip law: a template without placeholders, rendered against a
/// mapping without keys, reports no error and returns the source unchanged.
pub proof fn lemma_round_trip(t: &Template, m: &Mapping)
    requires
        t.replaces@.len() == 0,
        m@.len() == 0,
    ensures
        render_errors(t.template_str@, spans_of(t.replaces@), m@).len() == 0,
        assembled(t.template_str@, spans_of(t.replaces@), m@) == t.template_str@,
{
    let s = t.template_str@;
    let spans = spans_of(t.replaces@);
    assert(render_errors(s, spans, m@) =~= Seq::<ErrorView>::empty());
    assert(assembled(s, spans, m@) =~= s);
}

/// Reuse law: what a render yields is fixed by the template's text and spans
/// and by the mapping's pairs alone, so rendering the same parsed template
/// twice, with any two mappings, gives two results that do not interfere.
pub proof fn lemma_render_depends_only_on_views(
    t1: &Template,
    t2: &Template,
    m1: &Mapping,
    m2: &Mapping,
)
    requires
        t1.template_str@ == t2.template_str@,
        t1.replaces@ == t2.replaces@,
        m1@ == m2@,
    ensures
        render_errors(t1.template_str@, spans_of(t1.replaces@), m1@) == render_errors(
            t2.template_str@,
            spans_of(t2.replaces@),
            m2@,
        ),
        assembled(t1.template_str@, spans_of(t1.replaces@), m1@) == assembled(
            t2.template_str@,
            spans_of(t2.replaces@),
            m2@,
        ),
{
    assert(spans_of(t1.replaces@) =~= spans_of(t2.replaces@));
}

impl Template {
    /// Some placeholder of this template has exactly the key `key`.
    fn has_placeholder_key(&self, key: &str) -> (b: bool)
        requires
            self.wf(),
        ensures
            b == key_used(self.template_str@, spans_of(self.replaces@), key@),
    {
        let ghost s = self.template_str@;
        let ghost spans = spans_of(self.replaces@);
        let n = self.replaces.len();
        let mut i: usize = 0;
        while i < n
            invariant
                self.wf(),
                s == self.template_str@,
                spans == spans_of(self.replaces@),
                n == self.replaces.len(),
                i <= n,
                forall|j: int| 0 <= j < i ==> span_key(s, #[trigger] spans[j]) != key@,
            decreases n - i,
        {
            let (st, en) = self.replaces[i];
            proof {
                assert(span_wf(s, spans[i as int]));
            }
            let k = self.template_str.as_str().substring_char(st + 2, en - 1);
            if crate::mapping::str_eq(k, key) {
                proof {
                    assert(span_key(s, spans[i as int]) == key@);
                }
                return true;
            }
            i += 1;
        }
        false
    }

    /// Substitute the mapping into this template.
    ///
    /// Succeeds exactly when the mapping's keys and the placeholders' keys
    /// cover each other; otherwise reports every `Extra` key (in mapping
    /// order) followed by every `Missing` placeholder occurrence (in template
    /// order), and assembles nothing.
    pub fn render(&self, vars: &Mapping) -> (r: Result<String, Errors>)
        requires
            self.wf(),
            vars.wf(),
        ensures
            ({
                let s = self.template_str@;
                let spans = spans_of(self.replaces@);
                match r {
                    Ok(out) => render_errors(s, spans, vars@).len() == 0 && out@ == assembled(
                        s,
                        spans,
                        vars@,
                    ) && out@.len() == s.len() - sum_span_lens(spans, spans.len() as int)
                        + sum_val_lens(s, spans, vars@, spans.len() as int),
                    Err(es) => render_errors(s, spans, vars@).len() > 0 && es@ == render_errors(
                        s,
                        spans,
                        vars@,
                    ),
                }
            }),
    {
        let ghost s = self.template_str@;
        let ghost spans = spans_of(self.replaces@);
        let mut errors: Vec<Error> = Vec::new();

        // Report every mapping key that no placeholder uses.
        let nk = vars.pairs.len();
        let mut ki: usize = 0;
        while ki < nk
            invariant
                self.wf(),
                vars.wf(),
                s == self.template_str@,
                spans == spans_of(self.replaces@),
                nk == vars.pairs.len(),
                ki <= nk,
                errors_view(errors@) == extras_upto(s, spans, vars@, ki as int),
            decreases nk - ki,
        {
            let ghost before = errors_view(errors@);
            let used = self.has_placeholder_key(vars.pairs[ki].0.as_str());
            if !used {
                let owned = vars.pairs[ki].0.clone();
                errors.push(Error::Extra(owned));
                proof {
                    assert(errors_view(errors@) =~= before + seq![
                        ErrorView::Extra(vars@[ki as int].0),
                    ]);
                }
            }
            proof {
                assert(vars@[ki as int].0 == vars.pairs@[ki as int].0@);
                if used {
                    assert(extras_upto(s, spans, vars@, ki as int + 1) =~= before);
                }
            }
            ki += 1;
        }
        let ghost full_extras = extras_upto(s, spans, vars@, vars@.len() as int);

        // Report every placeholder occurrence whose key the mapping lacks,
        // in template order.
        let np = self.replaces.len();
        let mut pi: usize = 0;
        while pi < np
            invariant
                self.wf(),
                vars.wf(),
                s == self.template_str@,
                spans == spans_of(self.replaces@),
                full_extras == extras_upto(s, spans, vars@, vars@.len() as int),
                np == self.replaces.len(),
                pi <= np,
                errors_view(errors@) == full_extras + missings_upto(s, spans, vars@, pi as int),
            decreases np - pi,
        {
            let ghost before = errors_view(errors@);
            let (st, en) = self.replaces[pi];
            proof {
                assert(span_wf(s, spans[pi as int]));
            }
            let k = self.template_str.as_str().substring_char(st + 2, en - 1);
            let absent = match vars.get(k) {
                Some(_) => false,
                None => true,
            };
            if absent {
                errors.push(Error::Missing(k.to_owned()));
                proof {
                    assert(errors_view(errors@) =~= before + seq![
                        ErrorView::Missing(span_key(s, spans[pi as int])),
                    ]);
                    assert(before + seq![ErrorView::Missing(span_key(s, spans[pi as int]))]
                        =~= full_extras + (missings_upto(s, spans, vars@, pi as int) + seq![
                        ErrorView::Missing(span_key(s, spans[pi as int])),
                    ]));
                }
            } else {
                proof {
                    assert(missings_upto(s, spans, vars@, pi as int + 1) =~= missings_upto(
                        s,
                        spans,
                        vars@,
                        pi as int,
                    ));
                }
            }
            pi += 1;
        }

        // Wait on bailing out so the caller sees every problem at once.
        if errors.len() > 0 {
            let es = Errors { inner: errors };
            proof {
                assert(es@ == render_errors(s, spans, vars@));
                assert(render_errors(s, spans, vars@).len() > 0);
            }
            return Err(es);
        }
        proof {
            assert(missings_upto(s, spans, vars@, np as int).len() == 0) by {
                assert(errors_view(errors@).len() == 0);
            }
            lemma_missings_empty(s, spans, vars@, np as int);
        }

        // Assemble: literal text, then the mapped value, placeholder by
        // placeholder, then the trailing literal text.
        let n = self.template_str.unicode_len();
        let mut output = String::new();
        let mut cursor: usize = 0;
        let mut i: usize = 0;
        while i < np
            invariant
                self.wf(),
                vars.wf(),
                s == self.template_str@,
                spans == spans_of(self.replaces@),
                n == s.len(),
                np == self.replaces.len(),
                i <= np,
                cursor as int == prev_end(spans, i as int),
                cursor <= n,
                output@ == assembled_upto(s, spans, vars@, i as int),
                forall|idx: int| 0 <= idx < np ==> map_has(vars@, span_key(s, #[trigger] spans[idx])),
            decreases np - i,
        {
            let ghost before = output@;
            let (st, en) = self.replaces[i];
            proof {
                assert(span_wf(s, spans[i as int]));
                if i > 0 {
                    assert(spans[i as int].0 >= spans[i as int - 1].1);
                }
            }
            let lit = self.template_str.as_str().substring_char(cursor, st);
            output.append(lit);
            let k = self.template_str.as_str().substring_char(st + 2, en - 1);
            match vars.get(k) {
                Some(v) => {
                    output.append(v.as_str());
                },
                None => {
                    proof {
                        assert(map_has(vars@, span_key(s, spans[i as int])));
                        assert(false);
                    }
                },
            }
            proof {
                assert(output@ =~= before + s.subrange(prev_end(spans, i as int), spans[i as int].0)
                    + map_val(vars@, span_key(s, spans[i as int])));
            }
            cursor = en;
            i += 1;
        }
        if cursor < n {
            let tail = self.template_str.as_str().substring_char(cursor, n);
            output.append(tail);
        } else {
            proof {
                assert(s.subrange(prev_end(spans, np as int), s.len() as int)
                    =~= Seq::<char>::empty());
            }
        }
        proof {
            assert(output@ =~= assembled(s, spans, vars@));
            lemma_exact_length(s, spans, vars@);
            assert(render_errors(s, spans, vars@) =~= Seq::<ErrorView>::empty());
        }
        Ok(output)
    }
}

} // verus!
