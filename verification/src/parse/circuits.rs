//! The circuit page `GET /page/electricflow/1113?id=<N>&request_by_form=1`.
//!
//! Page contract (firmware frozen):
//! - circuits come in decreasing order of consumption
//! - `div.c_device` holds the circuit name, `div.c_value` the instantaneous
//!   reading (such as "650W"; "-" when not measured)
//! - pages are numbered `id=1..`; past a zero reading there is nothing left

use vstd::prelude::*;
use crate::html::{HtmlDoc, parse_html, select_spec};
use crate::parse::devices::element_text;
use crate::parse::{lenient_number, lenient_spec};
use crate::text::{chars_of, trim, string_of};

verus! {

/// One circuit entry of a page: its name and the numeric text of its reading
/// (`None` when the reading is "-", i.e. not measured).
#[derive(Debug, PartialEq)]
pub struct CircuitReading {
    pub name: String,
    /// Decimal literal of the reading in watts
    pub power: Option<String>,
}

/// The abstract value of a reading: name and numeric text.
pub open spec fn reading_view(c: CircuitReading) -> (Seq<char>, Option<Seq<char>>) {
    (c.name@, match c.power { Some(p) => Some(p@), None => None })
}

/// The entries of a page given the texts of its name and value elements: pairs
/// up to the shorter of the two lists (`Iterator::zip`), the value read leniently.
pub open spec fn circuits_from_texts_spec(names: Seq<Seq<char>>, values: Seq<Seq<char>>) -> Seq<(Seq<char>, Option<Seq<char>>)> {
    let n = if names.len() < values.len() { names.len() } else { values.len() };
    Seq::new(n, |i: int| (names[i], lenient_spec(values[i])))
}

/// Pairs circuit names with their readings (see [`circuits_from_texts_spec`]).
pub fn circuits_from_texts(names: &Vec<Vec<char>>, values: &Vec<Vec<char>>) -> (r: Vec<CircuitReading>)
    ensures
        r@.map_values(|c: CircuitReading| reading_view(c)) == circuits_from_texts_spec(
            names@.map_values(|v: Vec<char>| v@),
            values@.map_values(|v: Vec<char>| v@),
        ),
{
    let n = if names.len() < values.len() { names.len() } else { values.len() };
    let ghost spec = circuits_from_texts_spec(names@.map_values(|v: Vec<char>| v@), values@.map_values(|v: Vec<char>| v@));
    let mut out: Vec<CircuitReading> = Vec::new();
    let mut i: usize = 0;
    while i < n
        invariant
            n <= names@.len(),
            n <= values@.len(),
            spec.len() == n,
            spec == circuits_from_texts_spec(names@.map_values(|v: Vec<char>| v@), values@.map_values(|v: Vec<char>| v@)),
            i <= n,
            out@.len() == i,
            forall|k: int| 0 <= k < i ==> reading_view(#[trigger] out@[k]) == spec[k],
        decreases n - i,
    {
        let power = match lenient_number(values[i].as_slice()) {
            Some(p) => Some(string_of(p.as_slice())),
            None => None,
        };
        out.push(CircuitReading { name: string_of(names[i].as_slice()), power });
        i = i + 1;
    }
    assert(out@.map_values(|c: CircuitReading| reading_view(c)) =~= spec);
    out
}

/// The trimmed texts of the elements matching `sel`, in page order.
pub open spec fn texts_of(h: Seq<char>, sel: Seq<char>) -> Seq<Seq<char>> {
    select_spec(h, sel).map_values(|n: usize| element_text(h, n))
}

/// The trimmed texts of the elements matching `sel`.
pub fn select_texts(doc: &HtmlDoc, sel: &str) -> (r: Vec<Vec<char>>)
    ensures
        r@.map_values(|v: Vec<char>| v@) == texts_of(doc@, sel@),
{
    let ns = doc.select(sel);
    let mut out: Vec<Vec<char>> = Vec::new();
    let mut i: usize = 0;
    while i < ns.len()
        invariant
            i <= ns@.len(),
            ns@ == select_spec(doc@, sel@),
            out@.len() == i,
            forall|k: int| 0 <= k < i ==> (#[trigger] out@[k])@ == element_text(doc@, ns@[k]),
        decreases ns@.len() - i,
    {
        let t = doc.text(ns[i]);
        let tv = chars_of(t.as_str());
        out.push(trim(tv.as_slice()));
        i = i + 1;
    }
    assert(out@.map_values(|v: Vec<char>| v@) =~= texts_of(doc@, sel@));
    out
}

/// The circuit entries of one page (see [`circuits_from_texts_spec`]); empty
/// when no element matches (the end of the list, or a selector mismatch, which
/// the caller tells apart).
pub fn parse_circuit_page(html: &str) -> (r: Vec<CircuitReading>)
    ensures
        r@.map_values(|c: CircuitReading| reading_view(c)) == circuits_from_texts_spec(
            texts_of(html@, "div.c_device"@),
            texts_of(html@, "div.c_value"@),
        ),
{
    let doc = parse_html(html);
    let names = select_texts(&doc, "div.c_device");
    let values = select_texts(&doc, "div.c_value");
    circuits_from_texts(&names, &values)
}

} // verus!

verus! {

/// One circuit with its reading rounded to whole watts (`None` when not measured).
#[derive(Debug, PartialEq)]
pub struct Circuit {
    pub name: String,
    /// Instantaneous power [W]; null when not measured ("-")
    pub power_w: Option<i64>,
}

/// The abstract value of a [`Circuit`].
pub open spec fn circuit_view(c: Circuit) -> (Seq<char>, Option<i64>) {
    (c.name@, c.power_w)
}

/// The model of a list of circuits.
pub open spec fn circuits_view(v: Seq<Circuit>) -> Seq<(Seq<char>, Option<i64>)> {
    v.map_values(|c: Circuit| circuit_view(c))
}

} // verus!
