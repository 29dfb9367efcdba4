use vstd::prelude::*;

use crate::errors::Errors;
use crate::mapping::{Mapping, str_eq};
use crate::template::{Template, assembled, render_errors, spans_of, spec_parse};

verus! {

/// Whether some entry of the cache carries `name`.
pub open spec fn cache_has(ts: Seq<(Seq<char>, Template)>, name: Seq<char>) -> bool {
    exists|i: int| 0 <= i < ts.len() && ts[i].0 == name
}

/// The template stored under `name` (meaningful when the names are unique
/// and `cache_has(ts, name)` holds).
pub open spec fn cache_get(ts: Seq<(Seq<char>, Template)>, name: Seq<char>) -> Template {
    let i = choose|i: int| 0 <= i < ts.len() && ts[i].0 == name;
    ts[i].1
}

/// A batch of parsed templates, each stored under a name.
///
/// The render functions expect the name to exist: looking up an unknown
/// name is a caller programming error, not a recoverable condition.
pub struct TemplateCache {
    pub templates: Vec<(String, Template)>,
}

impl View for TemplateCache {
    type V = Seq<(Seq<char>, Template)>;

    open spec fn view(&self) -> Seq<(Seq<char>, Template)> {
        Seq::new(self.templates@.len(), |i: int| (self.templates@[i].0@, self.templates@[i].1))
    }
}

impl TemplateCache {
    /// Names pairwise distinct, every stored template well formed.
    pub open spec fn wf(&self) -> bool {
        (forall|i: int, j: int|
            0 <= i < j < self@.len() ==> (#[trigger] self@[i]).0 != (#[trigger] self@[j]).0)
            && (forall|i: int| 0 <= i < self@.len() ==> (#[trigger] self@[i]).1.wf())
    }

    /// Parse each `(name, source)` pair and store the result under its name;
    /// the caller owes distinct names and sources that parse.
    pub fn new(templates: &Vec<(String, String)>) -> (r: TemplateCache)
        requires
            forall|i: int|
                0 <= i < templates@.len() ==> spec_parse((#[trigger] templates@[i]).1@) is Ok,
            forall|i: int, j: int|
                0 <= i < j < templates@.len() ==> (#[trigger] templates@[i]).0@ != (
                #[trigger] templates@[j]).0@,
        ensures
            r.wf(),
            r@.len() == templates@.len(),
            forall|i: int|
                0 <= i < templates@.len() ==> (#[trigger] r@[i]).0 == templates@[i].0@
                    && r@[i].1.template_str@ == templates@[i].1@ && spec_parse(templates@[i].1@)
                    == Ok::<_, int>(spans_of(r@[i].1.replaces@)),
    {
        let mut out: Vec<(String, Template)> = Vec::new();
        let n = templates.len();
        let mut i: usize = 0;
        while i < n
            invariant
                n == templates@.len(),
                i <= n,
                out@.len() == i,
                forall|k: int|
                    0 <= k < templates@.len() ==> spec_parse((#[trigger] templates@[k]).1@) is Ok,
                forall|j: int|
                    0 <= j < i ==> (#[trigger] out@[j]).0@ == templates@[j].0@
                        && out@[j].1.template_str@ == templates@[j].1@ && spec_parse(
                        templates@[j].1@,
                    ) == Ok::<_, int>(spans_of(out@[j].1.replaces@)) && out@[j].1.wf(),
            decreases n - i,
        {
            let name = templates[i].0.clone();
            let t = match Template::new(templates[i].1.as_str()) {
                Ok(t) => t,
                Err(_) => {
                    proof {
                        assert(false);
                    }
                    vstd::pervasive::unreached()
                },
            };
            out.push((name, t));
            i += 1;
        }
        let r = TemplateCache { templates: out };
        proof {
            assert forall|i: int, j: int| 0 <= i < j < r@.len() implies (#[trigger] r@[i]).0 != (
            #[trigger] r@[j]).0 by {
                assert(r@[i].0 == templates@[i].0@);
                assert(r@[j].0 == templates@[j].0@);
            }
        }
        r
    }

    /// Whether a template is stored under `name`.
    pub fn contains(&self, name: &str) -> (b: bool)
        ensures
            b == cache_has(self@, name@),
    {
        let n = self.templates.len();
        let mut i: usize = 0;
        while i < n
            invariant
                n == self.templates@.len(),
                i <= n,
                forall|j: int| 0 <= j < i ==> (#[trigger] self@[j]).0 != name@,
            decreases n - i,
        {
            if str_eq(self.templates[i].0.as_str(), name) {
                proof {
                    assert(self@[i as int].0 == name@);
                }
                return true;
            }
            i += 1;
        }
        false
    }

    /// Substitute the mapping into the template stored under `name`; the
    /// caller owes a name that exists.
    pub fn render(&self, name: &str, data: &Mapping) -> (r: Result<String, Errors>)
        requires
            self.wf(),
            cache_has(self@, name@),
            data.wf(),
        ensures
            ({
                let t = cache_get(self@, name@);
                let s = t.template_str@;
                let spans = spans_of(t.replaces@);
                match r {
                    Ok(out) => render_errors(s, spans, data@).len() == 0 && out@ == assembled(
                        s,
                        spans,
                        data@,
                    ),
                    Err(es) => render_errors(s, spans, data@).len() > 0 && es@ == render_errors(
                        s,
                        spans,
                        data@,
                    ),
                }
            }),
    {
        let n = self.templates.len();
        let mut i: usize = 0;
        while i < n
            invariant
                self.wf(),
                cache_has(self@, name@),
                data.wf(),
                n == self.templates@.len(),
                i <= n,
                forall|j: int| 0 <= j < i ==> (#[trigger] self@[j]).0 != name@,
            decreases n - i,
        {
            if str_eq(self.templates[i].0.as_str(), name) {
                proof {
                    let c = choose|c: int| 0 <= c < self@.len() && self@[c].0 == name@;
                    assert(self@[i as int].0 == name@);
                    assert(c == i as int);
                }
                return self.templates[i].1.render(data);
            }
            i += 1;
        }
        proof {
            assert(!cache_has(self@, name@));
        }
        vstd::pervasive::unreached()
    }

    /// The raw source text of the template stored under `name`, with nothing
    /// substituted; the caller owes a name that exists.
    pub fn render_plain<'a>(&'a self, name: &str) -> (r: &'a str)
        requires
            self.wf(),
            cache_has(self@, name@),
        ensures
            r@ == cache_get(self@, name@).template_str@,
    {
        let n = self.templates.len();
        let mut i: usize = 0;
        while i < n
            invariant
                self.wf(),
                cache_has(self@, name@),
                n == self.templates@.len(),
                i <= n,
                forall|j: int| 0 <= j < i ==> (#[trigger] self@[j]).0 != name@,
            decreases n - i,
        {
            if str_eq(self.templates[i].0.as_str(), name) {
                proof {
                    let c = choose|c: int| 0 <= c < self@.len() && self@[c].0 == name@;
                    assert(self@[i as int].0 == name@);
                    assert(c == i as int);
                }
                return self.templates[i].1.template_str.as_str();
            }
            i += 1;
        }
        proof {
            assert(!cache_has(self@, name@));
        }
        vstd::pervasive::unreached()
    }
}

} // verus!
