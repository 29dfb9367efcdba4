use vstd::prelude::*;

use crate::decimal::{dec_str, dec_string};

verus! {

/// A single specific problem found while parsing or rendering.
#[derive(Clone, Debug, PartialEq, Eq, Hash)]
pub enum Error {
    /// A key was found in the template but no value was provided.
    ///
    /// Holds the name of the offending key.
    Missing(String),
    /// A key-value pair was given but never used in the template.
    ///
    /// Holds the name of the offending key.
    Extra(String),
    /// An opening delimiter was found but there was no matching closing
    /// delimiter.
    ///
    /// Holds the zero-indexed offset of the beginning of the opening
    /// delimiter.
    Unclosed(usize),
}

/// The mathematical shadow of an [`Error`]: key names as character
/// sequences, offsets as integers.
pub enum ErrorView {
    Missing(Seq<char>),
    Extra(Seq<char>),
    Unclosed(int),
}

impl View for Error {
    type V = ErrorView;

    open spec fn view(&self) -> ErrorView {
        match self {
            Error::Missing(k) => ErrorView::Missing(k@),
            Error::Extra(k) => ErrorView::Extra(k@),
            Error::Unclosed(i) => ErrorView::Unclosed(*i as int),
        }
    }
}

/// The views of a list of errors, in the same order.
pub open spec fn errors_view(es: Seq<Error>) -> Seq<ErrorView> {
    Seq::new(es.len(), |i: int| es[i]@)
}

/// The problems gathered during one render attempt, in the order they were
/// found.
#[derive(Clone, Debug, PartialEq, Eq, Hash)]
pub struct Errors {
    pub inner: Vec<Error>,
}

impl View for Errors {
    type V = Seq<ErrorView>;

    open spec fn view(&self) -> Seq<ErrorView> {
        errors_view(self.inner@)
    }
}

impl Errors {
    /// Get the error list.
    pub fn into_inner(self) -> (r: Vec<Error>)
        ensures
            errors_view(r@) == self@,
    {
        self.inner
    }
}

// ---------------------------------------------------------------------------
// Human-readable reports.
// ---------------------------------------------------------------------------
/// `"s"` when the group has any number of entries but one.
pub open spec fn plural_suffix(count: int) -> Seq<char> {
    if count != 1 {
        "s"@
    } else {
        Seq::empty()
    }
}

/// What follows entry `i` of a group of `count`: nothing after the last,
/// an Oxford-comma style joint before the final entry, `", "` elsewhere.
pub open spec fn sep_after(i: int, count: int) -> Seq<char> {
    if i + 1 == count {
        Seq::empty()
    } else if i + 2 == count {
        if count == 2 {
            " and "@
        } else {
            ", and "@
        }
    } else {
        ", "@
    }
}

/// An entry as printed: quoted or bare.
pub open spec fn item_text(it: Seq<char>, quotes: bool) -> Seq<char> {
    if quotes {
        "\""@ + it + "\""@
    } else {
        it
    }
}

/// The first `j` entries of a group joined with their separators.
pub open spec fn joined_upto(items: Seq<Seq<char>>, quotes: bool, j: int) -> Seq<char>
    decreases j,
{
    if j <= 0 {
        Seq::empty()
    } else {
        joined_upto(items, quotes, j - 1) + item_text(items[j - 1], quotes) + sep_after(
            j - 1,
            items.len() as int,
        )
    }
}

/// A whole group: nothing when it is empty, otherwise the pluralized label,
/// a colon, and the joined entries.
pub open spec fn group_msg(problem: Seq<char>, items: Seq<Seq<char>>, quotes: bool) -> Seq<char> {
    if items.len() == 0 {
        Seq::empty()
    } else {
        problem + plural_suffix(items.len() as int) + ": "@ + joined_upto(
            items,
            quotes,
            items.len() as int,
        )
    }
}

/// The views of a list of strings, in the same order.
pub open spec fn strs_view(v: Seq<String>) -> Seq<Seq<char>> {
    Seq::new(v.len(), |i: int| v[i]@)
}

/// Format one group of a report: the label `problem`, pluralized when
/// `items` has more than one entry, then the entries joined Oxford-comma
/// style, each quoted when `quotes` asks for it.  An empty group prints
/// nothing.
pub fn format_error(problem: &str, items: &Vec<String>, quotes: bool) -> (r: String)
    ensures
        r@ == group_msg(problem@, strs_view(items@), quotes),
{
    let ghost gitems = strs_view(items@);
    let count = items.len();
    if count == 0 {
        let r = String::new();
        proof {
            assert(r@ =~= group_msg(problem@, gitems, quotes));
        }
        return r;
    }
    let mut out = problem.to_owned();
    if count != 1 {
        out.append("s");
    }
    out.append(": ");
    proof {
        assert(out@ =~= problem@ + plural_suffix(count as int) + ": "@ + joined_upto(
            gitems,
            quotes,
            0,
        ));
    }
    let mut i: usize = 0;
    while i < count
        invariant
            count == items.len(),
            count > 0,
            i <= count,
            gitems == strs_view(items@),
            out@ == problem@ + plural_suffix(count as int) + ": "@ + joined_upto(
                gitems,
                quotes,
                i as int,
            ),
        decreases count - i,
    {
        let ghost before = out@;
        if quotes {
            out.append("\"");
            out.append(items[i].as_str());
            out.append("\"");
        } else {
            out.append(items[i].as_str());
        }
        proof {
            assert(out@ =~= before + item_text(gitems[i as int], quotes));
        }
        let ghost before2 = out@;
        if i + 1 == count {
        } else if count - i == 2 {
            if count == 2 {
                out.append(" and ");
            } else {
                out.append(", and ");
            }
        } else {
            out.append(", ");
        }
        proof {
            assert(out@ =~= before2 + sep_after(i as int, count as int));
            assert(out@ =~= problem@ + plural_suffix(count as int) + ": "@ + joined_upto(
                gitems,
                quotes,
                i as int + 1,
            ));
        }
        i += 1;
    }
    out
}

/// What one error prints on its own.
pub open spec fn error_message(e: ErrorView) -> Seq<char> {
    match e {
        ErrorView::Missing(k) => "missing key \""@ + k + "\""@,
        ErrorView::Extra(k) => "extraneous key \""@ + k + "\""@,
        ErrorView::Unclosed(i) => "unclosed delimitor opened at byte "@ + dec_str(i),
    }
}

impl Error {
    /// This error as human-readable text.
    pub fn message(&self) -> (r: String)
        ensures
            r@ == error_message(self@),
    {
        match self {
            Error::Missing(k) => {
                let mut r = "missing key \"".to_owned();
                r.append(k.as_str());
                r.append("\"");
                proof {
                    assert(r@ =~= error_message(self@));
                }
                r
            },
            Error::Extra(k) => {
                let mut r = "extraneous key \"".to_owned();
                r.append(k.as_str());
                r.append("\"");
                proof {
                    assert(r@ =~= error_message(self@));
                }
                r
            },
            Error::Unclosed(i) => {
                let mut r = "unclosed delimitor opened at byte ".to_owned();
                let num = dec_string(*i);
                r.append(num.as_str());
                proof {
                    assert(r@ =~= error_message(self@));
                }
                r
            },
        }
    }
}

/// The numerals of the `Unclosed` offsets among the first `j` errors, in
/// order.
pub open spec fn unclosed_items_upto(es: Seq<ErrorView>, j: int) -> Seq<Seq<char>>
    decreases j,
{
    if j <= 0 {
        Seq::empty()
    } else {
        unclosed_items_upto(es, j - 1) + match es[j - 1] {
            ErrorView::Unclosed(i) => seq![dec_str(i)],
            _ => Seq::empty(),
        }
    }
}

/// The `Missing` keys among the first `j` errors, in order.
pub open spec fn missing_items_upto(es: Seq<ErrorView>, j: int) -> Seq<Seq<char>>
    decreases j,
{
    if j <= 0 {
        Seq::empty()
    } else {
        missing_items_upto(es, j - 1) + match es[j - 1] {
            ErrorView::Missing(k) => seq![k],
            _ => Seq::empty(),
        }
    }
}

/// The `Extra` keys among the first `j` errors, in order.
pub open spec fn extra_items_upto(es: Seq<ErrorView>, j: int) -> Seq<Seq<char>>
    decreases j,
{
    if j <= 0 {
        Seq::empty()
    } else {
        extra_items_upto(es, j - 1) + match es[j - 1] {
            ErrorView::Extra(k) => seq![k],
            _ => Seq::empty(),
        }
    }
}

/// What a whole error collection prints: the errors grouped by kind —
/// unclosed delimiters, then missing keys, then extraneous keys — with
/// `"; "` between non-empty groups.
pub open spec fn errors_message(es: Seq<ErrorView>) -> Seq<char> {
    let u = unclosed_items_upto(es, es.len() as int);
    let m = missing_items_upto(es, es.len() as int);
    let x = extra_items_upto(es, es.len() as int);
    group_msg("unclosed delimiter opened at byte"@, u, false) + (if u.len() > 0 && m.len() > 0 {
        "; "@
    } else {
        Seq::empty()
    }) + group_msg("missing key"@, m, true) + (if (u.len() > 0 || m.len() > 0) && x.len() > 0 {
        "; "@
    } else {
        Seq::empty()
    }) + group_msg("extraneous key"@, x, true)
}

impl Errors {
    /// This collection as human-readable text, grouped by kind.
    pub fn message(&self) -> (r: String)
        ensures
            r@ == errors_message(self@),
    {
        let ghost es = self@;
        let mut uncl: Vec<String> = Vec::new();
        let mut miss: Vec<String> = Vec::new();
        let mut extr: Vec<String> = Vec::new();
        let n = self.inner.len();
        let mut i: usize = 0;
        while i < n
            invariant
                es == self@,
                n == self.inner.len(),
                i <= n,
                strs_view(uncl@) == unclosed_items_upto(es, i as int),
                strs_view(miss@) == missing_items_upto(es, i as int),
                strs_view(extr@) == extra_items_upto(es, i as int),
            decreases n - i,
        {
            let ghost bu = strs_view(uncl@);
            let ghost bm = strs_view(miss@);
            let ghost bx = strs_view(extr@);
            match &self.inner[i] {
                Error::Unclosed(off) => {
                    uncl.push(dec_string(*off));
                },
                Error::Missing(k) => {
                    miss.push(k.clone());
                },
                Error::Extra(k) => {
                    extr.push(k.clone());
                },
            }
            proof {
                assert(es[i as int] == self.inner@[i as int]@);
                match es[i as int] {
                    ErrorView::Unclosed(_) => {
                        assert(strs_view(uncl@) =~= unclosed_items_upto(es, i as int + 1));
                        assert(strs_view(miss@) =~= missing_items_upto(es, i as int + 1));
                        assert(strs_view(extr@) =~= extra_items_upto(es, i as int + 1));
                    },
                    ErrorView::Missing(_) => {
                        assert(strs_view(uncl@) =~= unclosed_items_upto(es, i as int + 1));
                        assert(strs_view(miss@) =~= missing_items_upto(es, i as int + 1));
                        assert(strs_view(extr@) =~= extra_items_upto(es, i as int + 1));
                    },
                    ErrorView::Extra(_) => {
                        assert(strs_view(uncl@) =~= unclosed_items_upto(es, i as int + 1));
                        assert(strs_view(miss@) =~= missing_items_upto(es, i as int + 1));
                        assert(strs_view(extr@) =~= extra_items_upto(es, i as int + 1));
                    },
                }
            }
            i += 1;
        }
        let mut r = format_error("unclosed delimiter opened at byte", &uncl, false);
        if uncl.len() > 0 && miss.len() > 0 {
            r.append("; ");
        }
        let mgroup = format_error("missing key", &miss, true);
        r.append(mgroup.as_str());
        if (uncl.len() > 0 || miss.len() > 0) && extr.len() > 0 {
            r.append("; ");
        }
        let xgroup = format_error("extraneous key", &extr, true);
        r.append(xgroup.as_str());
        proof {
            assert(r@ =~= errors_message(es));
        }
        r
    }
}

} // verus!
