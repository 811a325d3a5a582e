//! The JSON answer of `POST /data/electricflow/111/update`.
//!
//! Contract (firmware frozen):
//! - `g_capacity`: total generation [kW] (a number or a numeric string)
//! - `u_capacity`: total usage [kW]
//! - `lo_buy_sell`: 1 = selling, anything else = buying
//! - `g_d_<N>_title` / `g_d_<N>_capacity`: name and instantaneous reading [W]
//!   of each generation source
//!
//! Readings are returned as decimal literals: their `f64` values are what the
//! command line reports.

use vstd::prelude::*;
use crate::error::{AisError, ErrorKind};
use crate::json::{JsonRef, JsonModel, json_parse, parse_json};
use crate::parse::{lenient_number, lenient_spec};
use crate::parse::energy::field_str;
use crate::text::{chars_of, string_of, trim, trim_spec, dec_u32, dec_spec, append_str, append,
    chars_eq_str};

verus! {

/// Where the power-flow answer is posted for (with an empty form body).
pub const ELECTRICFLOW_UPDATE_PATH: &'static str = "/data/electricflow/111/update";

/// The numeric text of a JSON value read leniently: the `Display` text of a
/// number, the numeric text ([`lenient_spec`]) of a string, nothing otherwise.
pub open spec fn json_num_spec(v: JsonModel) -> Option<Seq<char>> {
    match v {
        JsonModel::Number { text, integer } => Some(text),
        JsonModel::Str(s) => lenient_spec(s),
        _ => None,
    }
}

/// The numeric text of field `k` of object `v`.
pub open spec fn field_num(v: JsonModel, k: Seq<char>) -> Option<Seq<char>> {
    match v {
        JsonModel::Object(m) => if m.contains_key(k) { json_num_spec(m[k]) } else { None },
        _ => None,
    }
}

fn json_num(v: &JsonRef) -> (r: Option<String>)
    ensures
        match json_num_spec(v@) {
            Some(t) => r matches Some(s) && s@ == t,
            None => r is None,
        },
{
    match v.number_text() {
        Some(t) => Some(t),
        None => match v.as_str() {
            Some(s) => {
                let sv = chars_of(s);
                match lenient_number(sv.as_slice()) {
                    Some(n) => Some(string_of(n.as_slice())),
                    None => None,
                }
            },
            None => None,
        },
    }
}

fn field_num_exec(v: &JsonRef, k: &str) -> (r: Option<String>)
    ensures
        match field_num(v@, k@) {
            Some(t) => r matches Some(s) && s@ == t,
            None => r is None,
        },
{
    match v.get(k) {
        Some(f) => json_num(&f),
        None => None,
    }
}

/// One generation source: its name and the decimal literal of its reading [W].
#[derive(Debug, PartialEq)]
pub struct SourceReading {
    pub name: String,
    pub power_w: String,
}

/// The readings of the power-flow answer, as decimal literals.
#[derive(Debug, PartialEq)]
pub struct PowerReading {
    /// Total usage [kW]
    pub usage_kw: String,
    /// Total generation [kW]; absent in homes without generation
    pub generation_kw: Option<String>,
    /// The grid direction flag (`lo_buy_sell`); the value 1 means selling
    pub buy_sell: Option<String>,
    /// Generation sources that are present, in order
    pub sources: Vec<SourceReading>,
}

/// `g_d_<i>_title`.
pub open spec fn title_key(i: u32) -> Seq<char> {
    "g_d_"@ + dec_spec(i as nat) + "_title"@
}

/// `g_d_<i>_capacity`.
pub open spec fn capacity_key(i: u32) -> Seq<char> {
    "g_d_"@ + dec_spec(i as nat) + "_capacity"@
}

/// The generation sources from number `i` on: the list ends at the first
/// number whose title is not a string; a source is kept when its trimmed title
/// is neither empty nor "-" and its capacity is numeric.
pub open spec fn sources_from(v: JsonModel, i: u32) -> Seq<(Seq<char>, Seq<char>)>
    decreases u32::MAX - i,
{
    if i == u32::MAX {
        Seq::empty()
    } else {
        match field_str(v, title_key(i)) {
            None => Seq::empty(),
            Some(t) => {
                let title = trim_spec(t);
                let rest = sources_from(v, (i + 1) as u32);
                match field_num(v, capacity_key(i)) {
                    Some(w) => if title.len() > 0 && title != "-"@ { seq![(title, w)] + rest } else { rest },
                    None => rest,
                }
            },
        }
    }
}

/// The readings of the power-flow JSON, or the `parse_failed` detail when
/// `u_capacity` is missing or not numeric.
pub open spec fn power_json_spec(v: JsonModel) -> Result<(Seq<char>, Option<Seq<char>>, Option<Seq<char>>, Seq<(Seq<char>, Seq<char>)>), Seq<char>> {
    match field_num(v, "u_capacity"@) {
        None => Err("u_capacity missing or not numeric (firmware mismatch?)"@),
        Some(u) => Ok((u, field_num(v, "g_capacity"@), field_num(v, "lo_buy_sell"@), sources_from(v, 1))),
    }
}

/// The model of a reading.
pub open spec fn reading_model(p: PowerReading) -> (Seq<char>, Option<Seq<char>>, Option<Seq<char>>, Seq<(Seq<char>, Seq<char>)>) {
    (
        p.usage_kw@,
        match p.generation_kw { Some(g) => Some(g@), None => None },
        match p.buy_sell { Some(g) => Some(g@), None => None },
        p.sources@.map_values(|s: SourceReading| (s.name@, s.power_w@)),
    )
}

fn key_of(i: u32, suffix: &str) -> (r: String)
    ensures
        r@ == "g_d_"@ + dec_spec(i as nat) + suffix@,
{
    let mut k = chars_of("g_d_");
    let d = dec_u32(i);
    append(&mut k, d.as_slice());
    append_str(&mut k, suffix);
    string_of(k.as_slice())
}

fn field_str_ref<'a>(v: &JsonRef<'a>, k: &str) -> (r: Option<&'a str>)
    ensures
        match field_str(v@, k@) {
            Some(t) => r matches Some(s) && s@ == t,
            None => r is None,
        },
{
    match v.get(k) {
        Some(f) => f.as_str(),
        None => None,
    }
}

/// The readings of the power-flow JSON (see [`power_json_spec`]).
pub fn power_from_json(v: &JsonRef) -> (r: Result<PowerReading, AisError>)
    ensures
        match power_json_spec(v@) {
            Ok(x) => r matches Ok(p) && reading_model(p) == x,
            Err(d) => r matches Err(e) && e.kind == ErrorKind::ParseFailed && e.detail@ == d,
        },
{
    let usage = match field_num_exec(v, "u_capacity") {
        Some(u) => u,
        None => return Err(AisError::parse_failed(String::from_str("u_capacity missing or not numeric (firmware mismatch?)"))),
    };
    let generation = field_num_exec(v, "g_capacity");
    let buy_sell = field_num_exec(v, "lo_buy_sell");
    let mut sources: Vec<SourceReading> = Vec::new();
    let mut i: u32 = 1;
    loop
        invariant
            1 <= i,
            sources@.map_values(|s: SourceReading| (s.name@, s.power_w@)) + sources_from(v@, i) == sources_from(v@, 1),
        ensures
            sources@.map_values(|s: SourceReading| (s.name@, s.power_w@)) == sources_from(v@, 1),
        decreases u32::MAX - i,
    {
        if i == u32::MAX {
            assert(sources@.map_values(|s: SourceReading| (s.name@, s.power_w@)) + Seq::empty() =~= sources@.map_values(|s: SourceReading| (s.name@, s.power_w@)));
            break;
        }
        let tk = key_of(i, "_title");
        let ghost cur = sources@.map_values(|s: SourceReading| (s.name@, s.power_w@));
        let title = match field_str_ref(v, tk.as_str()) {
            Some(s) => s,
            None => {
                assert(cur + Seq::empty() =~= cur);
                break;
            },
        };
        let tv = chars_of(title);
        let tt = trim(tv.as_slice());
        let ck = key_of(i, "_capacity");
        let cap = field_num_exec(v, ck.as_str());
        let ghost before = sources@.map_values(|s: SourceReading| (s.name@, s.power_w@));
        proof {
            reveal_strlit("-");
        }
        match cap {
            Some(w) => {
                if tt.len() > 0 && !chars_eq_str(tt.as_slice(), "-") {
                    sources.push(SourceReading { name: string_of(tt.as_slice()), power_w: w });
                    assert(sources@.map_values(|s: SourceReading| (s.name@, s.power_w@)) =~= before.push((tt@, w@)));
                }
            },
            None => {},
        }
        i = i + 1;
    }
    let p = PowerReading { usage_kw: usage, generation_kw: generation, buy_sell, sources };
    assert(reading_model(p).3 =~= sources_from(v@, 1));
    Ok(p)
}

/// The power-flow JSON as readings, or the `parse_failed` detail when the
/// body is not JSON or `u_capacity` is unusable.
pub open spec fn power_spec(body: Seq<char>) -> Result<(Seq<char>, Option<Seq<char>>, Option<Seq<char>>, Seq<(Seq<char>, Seq<char>)>), Seq<char>> {
    match json_parse(body) {
        Err(e) => Err("electricflow/111/update is not JSON: "@ + e),
        Ok(v) => power_json_spec(v),
    }
}

/// Reads the answer of `POST /data/electricflow/111/update`.
pub fn parse_power(body: &str) -> (r: Result<PowerReading, AisError>)
    ensures
        match power_spec(body@) {
            Ok(x) => r matches Ok(p) && reading_model(p) == x,
            Err(d) => r matches Err(e) && e.kind == ErrorKind::ParseFailed && e.detail@ == d,
        },
{
    match parse_json(body) {
        Ok(v) => power_from_json(&v.as_ref()),
        Err(e) => {
            let mut d = chars_of("electricflow/111/update is not JSON: ");
            append_str(&mut d, e.as_str());
            Err(AisError::parse_failed(string_of(d.as_slice())))
        },
    }
}

} // verus!
