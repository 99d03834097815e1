//! Parsing of many texts at once.
use vstd::prelude::*;

use rayon::iter::{IntoParallelRefIterator, ParallelIterator};

use crate::debug::{debug_str, str_debug};
use crate::layout::{Layout, law_layouts};
use crate::parser::{
    Parsed, failure, failure_message, law_parsed_is_valid, parse_inner, parse_spec, parse_text,
};
use crate::text::outcome;

verus! {

/// What came of a list of texts: the dates and times before the first text that
/// could not be parsed, and the message for that text.
#[derive(Debug)]
pub struct Batch {
    pub parsed: Vec<Parsed>,
    pub failure: Option<String>,
}

impl Batch {
    /// The batch holds the items of `results` up to the first failure, and reports
    /// that one, if there is any.
    pub open spec fn gathers(self, results: Seq<Result<Parsed, Seq<char>>>) -> bool {
        let n = self.parsed@.len() as int;
        &&& n <= results.len()
        &&& forall|k: int| 0 <= k < n ==> results[k] == Ok::<Parsed, Seq<char>>(#[trigger] self.parsed@[k])
        &&& match self.failure {
            None => n == results.len(),
            Some(message) => n < results.len() && results[n] == Err::<Parsed, Seq<char>>(message@),
        }
    }
}

/// What `parse` gives for each text.
pub open spec fn each_parsed(strings: Seq<String>, dayfirst: bool) -> Seq<
    Result<Parsed, Seq<char>>,
> {
    strings.map_values(|s: String| parse_spec(s@, dayfirst))
}

/// What `parse` gives for a text, given the outcome of parsing it.
pub open spec fn reported(s: Seq<char>, r: Result<Parsed, Seq<char>>) -> Result<
    Parsed,
    Seq<char>,
> {
    match r {
        Ok(p) => Ok(p),
        Err(why) => Err(failure(str_debug(s), why)),
    }
}

/// The outcomes of parsing, each as it is reported for its text.
pub open spec fn each_reported(
    strings: Seq<String>,
    results: Seq<Result<Parsed, String>>,
) -> Seq<Result<Parsed, Seq<char>>> {
    Seq::new(results.len(), |k: int| reported(strings[k]@, outcome(results[k])))
}

/// Calls `parse_inner` on every text, on the threads of rayon: `par_iter` walks the
/// vector by index, `map` applies the closure to each item, and `collect` into a
/// vector keeps the order of the items. So the result has one item for each text, at
/// the same index, and it is what `parse_inner` gives for that text. Nothing is said
/// of which thread works on which text, or when.
#[verifier::external_body]
pub(crate) fn parse_each(strings: &Vec<String>, dayfirst: bool) -> (r: Vec<Result<Parsed, String>>)
    ensures
        r@.len() == strings@.len(),
        forall|k: int|
            0 <= k < r@.len() ==> outcome(#[trigger] r@[k]) == parse_text(strings@[k]@, dayfirst),
{
    strings.par_iter().map(|s| parse_inner(s, dayfirst)).collect::<Vec<_>>()
}

/// Gathers the outcomes of parsing `strings`, in their order, up to the first failure.
pub fn gather(strings: &Vec<String>, results: Vec<Result<Parsed, String>>) -> (r: Batch)
    requires
        strings@.len() == results@.len(),
    ensures
        r.gathers(each_reported(strings@, results@)),
        r.parsed@.len() <= results@.len(),
        forall|k: int|
            0 <= k < r.parsed@.len() ==> results@[k] == Ok::<Parsed, String>(#[trigger] r.parsed@[k]),
        r.failure is None <==> r.parsed@.len() == results@.len(),
        r.failure matches Some(message) ==> {
            let n = r.parsed@.len() as int;
            results@[n] matches Err(why) && message@ == "rustdate: could not parse "@ + str_debug(
                strings@[n]@,
            ) + ": "@ + why@
        },
{
    let mut parsed: Vec<Parsed> = Vec::new();
    let mut k: usize = 0;
    while k < results.len()
        invariant
            strings@.len() == results@.len(),
            k <= results@.len(),
            parsed@.len() == k,
            forall|j: int|
                0 <= j < k ==> each_reported(strings@, results@)[j] == Ok::<Parsed, Seq<char>>(
                    #[trigger] parsed@[j],
                ),
        decreases results.len() - k,
    {
        match &results[k] {
            Ok(p) => {
                parsed.push(*p);
            },
            Err(why) => {
                let message = failure_message(debug_str(strings[k].as_str()).as_str(), why.as_str());
                return Batch { parsed, failure: Some(message) };
            },
        }
        k = k + 1;
    }
    Batch { parsed, failure: None }
}

/// Parses a list of texts in parallel. The batch ends before the first text, in the
/// order of the list, that could not be parsed.
pub fn parse_many(strings: &Vec<String>, dayfirst: bool) -> (r: Batch)
    ensures
        r.gathers(each_parsed(strings@, dayfirst)),
        forall|k: int| 0 <= k < r.parsed@.len() ==> (#[trigger] r.parsed@[k]).wf(),
        r.parsed@.len() <= strings@.len(),
        forall|k: int|
            0 <= k < r.parsed@.len() ==> parse_text(strings@[k]@, dayfirst) == Ok::<
                Parsed,
                Seq<char>,
            >(#[trigger] r.parsed@[k]),
        r.failure is None <==> r.parsed@.len() == strings@.len(),
        r.failure matches Some(message) ==> {
            let n = r.parsed@.len() as int;
            parse_text(strings@[n]@, dayfirst) matches Err(why) && message@
                == "rustdate: could not parse "@ + str_debug(strings@[n]@) + ": "@ + why
        },
{
    let results = parse_each(strings, dayfirst);
    assert(each_reported(strings@, results@) =~= each_parsed(strings@, dayfirst)) by {
        assert forall|k: int| 0 <= k < strings@.len() implies each_reported(strings@, results@)[k]
            == each_parsed(strings@, dayfirst)[k] by {
            assert(outcome(results@[k]) == parse_text(strings@[k]@, dayfirst));
        }
    }
    let r = gather(strings, results);
    proof {
        assert forall|k: int| 0 <= k < r.parsed@.len() implies (#[trigger] r.parsed@[k]).wf() by {
            law_parsed_is_valid(strings@[k]@, dayfirst);
        }
    }
    r
}

/// The outcomes of a list of texts determine the batch.
pub proof fn law_batch_is_determined(a: Batch, b: Batch, results: Seq<Result<Parsed, Seq<char>>>)
    requires
        a.gathers(results),
        b.gathers(results),
    ensures
        a.parsed@ == b.parsed@,
        match (a.failure, b.failure) {
            (Some(x), Some(y)) => x@ == y@,
            (None, None) => true,
            _ => false,
        },
{
    let m = a.parsed@.len() as int;
    let n = b.parsed@.len() as int;
    if m < n {
        assert(results[m] == Ok::<Parsed, Seq<char>>(b.parsed@[m]));
    } else if n < m {
        assert(results[n] == Ok::<Parsed, Seq<char>>(a.parsed@[n]));
    } else {
        assert forall|k: int| 0 <= k < m implies a.parsed@[k] == b.parsed@[k] by {
            assert(results[k] == Ok::<Parsed, Seq<char>>(a.parsed@[k]));
            assert(results[k] == Ok::<Parsed, Seq<char>>(b.parsed@[k]));
        }
        assert(a.parsed@ =~= b.parsed@);
    }
}

/// A list in which every text can be parsed gives, at each index, what the text at that
/// index is read as in the order of day and month that the caller asked for.
pub proof fn law_every_text_in_its_place(b: Batch, strings: Seq<String>, dayfirst: bool)
    requires
        b.gathers(each_parsed(strings, dayfirst)),
        forall|k: int| 0 <= k < strings.len() ==> parse_text(#[trigger] strings[k]@, dayfirst) is Ok,
    ensures
        b.failure is None,
        b.parsed@.len() == strings.len(),
        forall|k: int|
            0 <= k < strings.len() ==> parse_text(#[trigger] strings[k]@, dayfirst) == Ok::<
                Parsed,
                Seq<char>,
            >(b.parsed@[k]),
{
    let n = b.parsed@.len() as int;
    if n < strings.len() {
        assert(parse_text(strings[n]@, dayfirst) is Ok);
        assert(each_parsed(strings, dayfirst)[n] is Ok);
    }
    assert forall|k: int| 0 <= k < strings.len() implies parse_text(#[trigger] strings[k]@, dayfirst)
        == Ok::<Parsed, Seq<char>>(b.parsed@[k]) by {
        assert(each_parsed(strings, dayfirst)[k] == Ok::<Parsed, Seq<char>>(b.parsed@[k]));
    }
}

/// Where some text cannot be parsed, the first such text is the one that is reported, and
/// the texts before it are given as they are read.
pub proof fn law_first_failure_is_reported(
    b: Batch,
    strings: Seq<String>,
    dayfirst: bool,
    n: int,
    why: Seq<char>,
)
    requires
        b.gathers(each_parsed(strings, dayfirst)),
        0 <= n < strings.len(),
        forall|k: int| 0 <= k < n ==> parse_text(#[trigger] strings[k]@, dayfirst) is Ok,
        parse_text(strings[n]@, dayfirst) == Err::<Parsed, Seq<char>>(why),
    ensures
        b.parsed@.len() == n,
        forall|k: int|
            0 <= k < n ==> parse_text(#[trigger] strings[k]@, dayfirst) == Ok::<Parsed, Seq<char>>(
                b.parsed@[k],
            ),
        b.failure matches Some(message) && message@ == "rustdate: could not parse "@ + str_debug(
            strings[n]@,
        ) + ": "@ + why,
{
    let all = each_parsed(strings, dayfirst);
    let m = b.parsed@.len() as int;
    assert(all[n] is Err);
    if m < n {
        assert(parse_text(strings[m]@, dayfirst) is Ok);
        assert(all[m] is Ok);
    } else if n < m {
        assert(all[n] == Ok::<Parsed, Seq<char>>(b.parsed@[n]));
    }
    assert forall|k: int| 0 <= k < n implies parse_text(#[trigger] strings[k]@, dayfirst) == Ok::<
        Parsed,
        Seq<char>,
    >(b.parsed@[k]) by {
        assert(all[k] == Ok::<Parsed, Seq<char>>(b.parsed@[k]));
    }
}

/// A list of texts in supported layouts, of dates and times that exist, gives these dates
/// and times, with day and month in the order that the caller asked for.
pub proof fn law_batch_of_layouts(
    b: Batch,
    strings: Seq<String>,
    layouts: Seq<Layout>,
    dayfirst: bool,
)
    requires
        b.gathers(each_parsed(strings, dayfirst)),
        layouts.len() == strings.len(),
        forall|k: int|
            0 <= k < strings.len() ==> {
                &&& (#[trigger] layouts[k]).wf()
                &&& strings[k]@ == layouts[k].text()
                &&& layouts[k].read(dayfirst) is Some
            },
    ensures
        b.failure is None,
        b.parsed@.len() == strings.len(),
        forall|k: int|
            0 <= k < strings.len() ==> (#[trigger] layouts[k]).read(dayfirst) == Some(b.parsed@[k]),
{
    assert forall|k: int| 0 <= k < strings.len() implies parse_text(
        #[trigger] strings[k]@,
        dayfirst,
    ) == Ok::<Parsed, Seq<char>>(layouts[k].read(dayfirst)->0) by {
        law_layouts(layouts[k], dayfirst);
    }
    law_every_text_in_its_place(b, strings, dayfirst);
    assert forall|k: int| 0 <= k < strings.len() implies (#[trigger] layouts[k]).read(dayfirst)
        == Some(b.parsed@[k]) by {
        assert(parse_text(strings[k]@, dayfirst) == Ok::<Parsed, Seq<char>>(b.parsed@[k]));
    }
}

} // verus!
