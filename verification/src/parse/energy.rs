//! The accumulated-energy (kWh) pages.
//!
//! Page contract (firmware frozen):
//! - today's totals: `GET /page/graph/51111` (generation) / `52111` (usage) /
//!   `53111` (bought) / `54111` (sold); the text of `#val_kwh` is the kWh value
//! - per circuit: `GET /page/graph/584?data=<base64 JSON>` (`{"circuitid":"<id>"}`),
//!   again `#val_kwh`
//! - circuit catalog: `GET /page/setting/installation/734`, the JSON argument of
//!   `init({...})` in a `<script>`, field `arrayCircuitNameList`
//!   (`strBtnType == "1"` marks a measured circuit)
//! - a date: the `data` JSON gains `{"day":[Y,M,D],"term":"YYYY/MM/DD","termStr":"day"}`

use vstd::prelude::*;
use vstd::utf8::encode_utf8;
use crate::error::{AisError, ErrorKind};
use crate::html::{HtmlDoc, parse_html, select_spec, html_text};
use crate::json::{JsonValue, JsonRef, JsonModel, ObjectBuilder, json_text, json_parse, parse_json};
use crate::parse::{lenient_number, lenient_spec};
use crate::text::{chars_of, string_of, trim, trim_spec, dec_u32, dec_spec, pad_zero, zero_pad,
    concat, append_str, contains, contains_spec, find_char, rfind_char, debug_str, debug_text,
    chars_eq_str, slice_chars, first_index, last_index, lemma_scan_char};

verus! {

/// Graph pages showing the kWh total of today (or of the given date).
pub const GRAPH_GENERATION_DAY: u32 = 51111;
pub const GRAPH_USAGE_DAY: u32 = 52111;
pub const GRAPH_BUY_DAY: u32 = 53111;
pub const GRAPH_SELL_DAY: u32 = 54111;
/// Graph page of the kWh of one circuit.
pub const GRAPH_CIRCUIT_DAY: u32 = 584;
/// Path of the circuit catalog (names of the measured circuits).
pub const CIRCUIT_CATALOG_PATH: &'static str = "/page/setting/installation/734";

/// The character of the standard base64 alphabet for `i` (`0 <= i < 64`).
pub open spec fn b64_char(i: int) -> char {
    if i < 26 {
        ((65 + i) as u8) as char
    } else if i < 52 {
        ((97 + i - 26) as u8) as char
    } else if i < 62 {
        ((48 + i - 52) as u8) as char
    } else if i == 62 {
        '+'
    } else {
        '/'
    }
}

/// The four characters that encode the first (up to) three bytes of `s`.
pub open spec fn b64_group(s: Seq<u8>) -> Seq<char> {
    let n: int = s[0] * 65536 + (if s.len() > 1 { s[1] as int } else { 0 }) * 256 + (if s.len() > 2 { s[2] as int } else { 0 });
    seq![
        b64_char(n / 262144 % 64),
        b64_char(n / 4096 % 64),
        if s.len() > 1 { b64_char(n / 64 % 64) } else { '=' },
        if s.len() > 2 { b64_char(n % 64) } else { '=' },
    ]
}

/// Standard base64 with padding (RFC 4648): each group of three bytes gives
/// four characters; a final group of one or two bytes is padded with `=`.
pub open spec fn b64_spec(s: Seq<u8>) -> Seq<char>
    decreases s.len(),
{
    if s.len() == 0 {
        Seq::empty()
    } else if s.len() <= 3 {
        b64_group(s)
    } else {
        b64_group(s) + b64_spec(s.skip(3))
    }
}

fn b64_char_exec(i: u32) -> (c: char)
    requires
        i < 64,
    ensures
        c == b64_char(i as int),
{
    if i < 26 {
        ((65 + i) as u8) as char
    } else if i < 52 {
        ((97 + i - 26) as u8) as char
    } else if i < 62 {
        ((48 + i - 52) as u8) as char
    } else if i == 62 {
        '+'
    } else {
        '/'
    }
}

/// Appends the group of `input` starting at byte `i`.
fn push_group(out: &mut Vec<char>, input: &[u8], i: usize)
    requires
        i < input@.len(),
    ensures
        final(out)@ == old(out)@ + b64_group(input@.skip(i as int)),
{
    let rest = input.len() - i;
    let b0 = input[i];
    let b1: u8 = if rest > 1 { input[i + 1] } else { 0 };
    let b2: u8 = if rest > 2 { input[i + 2] } else { 0 };
    let n: u32 = ((b0 as u32) << 16) | ((b1 as u32) << 8) | (b2 as u32);
    assert(n == b0 * 65536 + b1 * 256 + b2) by (bit_vector)
        requires
            n == ((b0 as u32) << 16) | ((b1 as u32) << 8) | (b2 as u32);
    let c0 = (n >> 18) & 0x3f;
    let c1 = (n >> 12) & 0x3f;
    let c2 = (n >> 6) & 0x3f;
    let c3 = n & 0x3f;
    assert(c0 == n / 262144 % 64 && c1 == n / 4096 % 64 && c2 == n / 64 % 64 && c3 == n % 64) by (bit_vector)
        requires
            c0 == (n >> 18) & 0x3f,
            c1 == (n >> 12) & 0x3f,
            c2 == (n >> 6) & 0x3f,
            c3 == n & 0x3f;
    let ghost t = input@.skip(i as int);
    assert(t[0] == b0);
    assert(t.len() > 1 ==> t[1] == b1);
    assert(t.len() > 2 ==> t[2] == b2);
    out.push(b64_char_exec(c0));
    out.push(b64_char_exec(c1));
    out.push(if rest > 1 { b64_char_exec(c2) } else { '=' });
    out.push(if rest > 2 { b64_char_exec(c3) } else { '=' });
}

/// Standard base64 with padding (written by hand to keep dependencies small).
pub fn base64(input: &[u8]) -> (r: String)
    ensures
        r@ == b64_spec(input@),
{
    let mut out: Vec<char> = Vec::new();
    let len = input.len();
    let mut i: usize = 0;
    assert(input@.skip(0) == input@);
    while i < len
        invariant
            len == input@.len(),
            i <= len,
            i < len ==> out@ + b64_spec(input@.skip(i as int)) == b64_spec(input@),
            i >= len ==> out@ == b64_spec(input@),
        decreases len - i,
    {
        let ghost prev = out@;
        push_group(&mut out, input, i);
        proof {
            let t = input@.skip(i as int);
            if t.len() > 3 {
                assert(t.skip(3) == input@.skip(i + 3));
            }
        }
        if len - i <= 3 {
            i = len;
        } else {
            i = i + 3;
        }
    }
    string_of_b64(&out)
}

fn string_of_b64(v: &Vec<char>) -> (r: String)
    ensures
        r@ == v@,
{
    crate::text::string_of(v.as_slice())
}

/// One measured circuit of the circuit catalog.
#[derive(Debug, PartialEq)]
pub struct CatalogCircuit {
    pub id: String,
    pub name: String,
}

/// `YYYY/MM/DD` (zero padded) of a date.
pub open spec fn term_spec(y: u32, m: u32, d: u32) -> Seq<char> {
    zero_pad(dec_spec(y as nat), 4) + "/"@ + zero_pad(dec_spec(m as nat), 2) + "/"@ + zero_pad(dec_spec(d as nat), 2)
}

/// The JSON object of a graph page's `data` query: `circuitid` when a circuit
/// is given; `day` (`[Y,M,D]`), `term` (`"YYYY/MM/DD"`) and `termStr` (`"day"`)
/// when a date is given.
pub open spec fn graph_data_model(circuit_id: Option<Seq<char>>, date: Option<(u32, u32, u32)>) -> JsonModel {
    let m0 = Map::<Seq<char>, JsonModel>::empty();
    let m1 = match circuit_id {
        Some(id) => m0.insert("circuitid"@, JsonModel::Str(id)),
        None => m0,
    };
    let m2 = match date {
        Some((y, m, d)) => m1.insert(
            "day"@,
            JsonModel::Array(seq![
                JsonModel::Number { text: dec_spec(y as nat), integer: Some(y as i64) },
                JsonModel::Number { text: dec_spec(m as nat), integer: Some(m as i64) },
                JsonModel::Number { text: dec_spec(d as nat), integer: Some(d as i64) },
            ]),
        ).insert("term"@, JsonModel::Str(term_spec(y, m, d))).insert("termStr"@, JsonModel::Str("day"@)),
        None => m1,
    };
    JsonModel::Object(m2)
}

/// `Some(view)` of an optional string slice.
pub open spec fn opt_str_view(o: Option<&str>) -> Option<Seq<char>> {
    match o {
        Some(s) => Some(s@),
        None => None,
    }
}

fn term_of(y: u32, m: u32, d: u32) -> (r: String)
    ensures
        r@ == term_spec(y, m, d),
{
    let mut t = pad_zero(dec_u32(y), 4);
    t.push('/');
    let mm = pad_zero(dec_u32(m), 2);
    let mut t = concat(t.as_slice(), mm.as_slice());
    t.push('/');
    let dd = pad_zero(dec_u32(d), 2);
    let t = concat(t.as_slice(), dd.as_slice());
    proof {
        reveal_strlit("/");
        assert(t@ =~= term_spec(y, m, d));
    }
    string_of(t.as_slice())
}

/// The `data` query JSON of a graph page (see [`graph_data_model`]).
pub fn graph_data_json(circuit_id: Option<&str>, date: Option<(u32, u32, u32)>) -> (r: String)
    ensures
        r@ == json_text(graph_data_model(opt_str_view(circuit_id), date)),
{
    let mut obj = ObjectBuilder::new();
    match circuit_id {
        Some(id) => obj.insert("circuitid", JsonValue::string(id)),
        None => {},
    }
    match date {
        Some((y, m, d)) => {
            let mut items: Vec<JsonValue> = Vec::new();
            items.push(JsonValue::number_u32(y));
            items.push(JsonValue::number_u32(m));
            items.push(JsonValue::number_u32(d));
            let ghost iv = items@;
            let arr = JsonValue::array(items);
            assert(iv.map_values(|v: JsonValue| v@) =~= seq![
                JsonModel::Number { text: dec_spec(y as nat), integer: Some(y as i64) },
                JsonModel::Number { text: dec_spec(m as nat), integer: Some(m as i64) },
                JsonModel::Number { text: dec_spec(d as nat), integer: Some(d as i64) },
            ]);
            obj.insert("day", arr);
            let term = term_of(y, m, d);
            obj.insert("term", JsonValue::string(term.as_str()));
            obj.insert("termStr", JsonValue::string("day"));
        },
        None => {},
    }
    let v = obj.build();
    assert(v@ == graph_data_model(opt_str_view(circuit_id), date));
    v.to_text()
}

/// The path of a graph page: `/page/graph/<page_id>`, with
/// `?data=<base64 of the UTF-8 of the data JSON>` when a circuit or a date is given.
pub open spec fn graph_path_spec(page_id: u32, circuit_id: Option<Seq<char>>, date: Option<(u32, u32, u32)>) -> Seq<char> {
    let base = "/page/graph/"@ + dec_spec(page_id as nat);
    if circuit_id is None && date is None {
        base
    } else {
        base + "?data="@ + b64_spec(encode_utf8(json_text(graph_data_model(circuit_id, date))))
    }
}

/// Builds the path of a graph page; without a circuit or a date there is no query.
pub fn graph_path(page_id: u32, circuit_id: Option<&str>, date: Option<(u32, u32, u32)>) -> (r: String)
    ensures
        r@ == graph_path_spec(page_id, opt_str_view(circuit_id), date),
{
    let mut p = chars_of("/page/graph/");
    let id = dec_u32(page_id);
    let mut p = concat(p.as_slice(), id.as_slice());
    if circuit_id.is_none() && date.is_none() {
        return string_of(p.as_slice());
    }
    let data = graph_data_json(circuit_id, date);
    let encoded = base64(data.as_str().as_bytes());
    append_str(&mut p, "?data=");
    let ev = chars_of(encoded.as_str());
    let p = concat(p.as_slice(), ev.as_slice());
    string_of(p.as_slice())
}

/// The reading of a graph page: the numeric text of the first `#val_kwh`, or
/// the `parse_failed` detail when the element is missing or not numeric.
pub open spec fn val_kwh_spec(h: Seq<char>) -> Result<Seq<char>, Seq<char>> {
    let m = select_spec(h, "#val_kwh"@);
    if m.len() == 0 {
        Err("#val_kwh not found on graph page (firmware mismatch?)"@)
    } else {
        kwh_text_spec(html_text(h, m[0]))
    }
}

/// The reading in the text of `#val_kwh`: its numeric text, or the
/// `parse_failed` detail when it is not numeric.
pub open spec fn kwh_text_spec(t: Seq<char>) -> Result<Seq<char>, Seq<char>> {
    match lenient_spec(t) {
        Some(n) => Ok(n),
        None => Err("#val_kwh is not numeric: "@ + debug_text(trim_spec(t))),
    }
}

/// Reads the text of `#val_kwh` (see [`kwh_text_spec`]).
pub fn kwh_from_text(t: &str) -> (r: Result<String, AisError>)
    ensures
        match kwh_text_spec(t@) {
            Ok(n) => r matches Ok(v) && v@ == n,
            Err(d) => r matches Err(e) && e.kind == ErrorKind::ParseFailed && e.detail@ == d,
        },
{
    let tv = chars_of(t);
    match lenient_number(tv.as_slice()) {
        Some(n) => Ok(string_of(n.as_slice())),
        None => {
            let tt = string_of(trim(tv.as_slice()).as_slice());
            let dbg = debug_str(tt.as_str());
            let mut d = chars_of("#val_kwh is not numeric: ");
            append_str(&mut d, dbg.as_str());
            Err(AisError::parse_failed(string_of(d.as_slice())))
        },
    }
}

/// Reads the kWh value (`#val_kwh`) of a graph page, as the decimal literal of
/// its `f64` value.
pub fn parse_val_kwh(html: &str) -> (r: Result<String, AisError>)
    ensures
        match val_kwh_spec(html@) {
            Ok(n) => r matches Ok(v) && v@ == n,
            Err(d) => r matches Err(e) && e.kind == ErrorKind::ParseFailed && e.detail@ == d,
        },
{
    let doc = parse_html(html);
    let m = doc.select("#val_kwh");
    if m.len() == 0 {
        return Err(AisError::parse_failed(String::from_str("#val_kwh not found on graph page (firmware mismatch?)")));
    }
    let t = doc.text(m[0]);
    kwh_from_text(t.as_str())
}

/// The string value of field `k` of object `v`, if it is one.
pub open spec fn field_str(v: JsonModel, k: Seq<char>) -> Option<Seq<char>> {
    match v {
        JsonModel::Object(m) => if m.contains_key(k) {
            match m[k] {
                JsonModel::Str(s) => Some(s),
                _ => None,
            }
        } else {
            None
        },
        _ => None,
    }
}

/// The catalog entry of one item of `arrayCircuitNameList`: kept when
/// `strBtnType` is the string "1" and `strId` is a string; the name is
/// `strCircuit` when it is a string that is not blank, else `Circuit <id>`.
pub open spec fn catalog_entry(e: JsonModel) -> Option<(Seq<char>, Seq<char>)> {
    if field_str(e, "strBtnType"@) != Some("1"@) {
        None
    } else {
        match field_str(e, "strId"@) {
            None => None,
            Some(id) => {
                let name = match field_str(e, "strCircuit"@) {
                    Some(n) => if trim_spec(n).len() > 0 { n } else { "Circuit "@ + id },
                    None => "Circuit "@ + id,
                };
                Some((id, name))
            },
        }
    }
}

/// The catalog entries of the items `items`, in order.
pub open spec fn catalog_entries(items: Seq<JsonModel>) -> Seq<(Seq<char>, Seq<char>)>
    decreases items.len(),
{
    if items.len() == 0 {
        Seq::empty()
    } else {
        let rest = catalog_entries(items.drop_last());
        match catalog_entry(items.last()) {
            Some(e) => rest.push(e),
            None => rest,
        }
    }
}

/// The measured circuits of the catalog JSON, or the `parse_failed` detail
/// when `arrayCircuitNameList` is not an array.
pub open spec fn catalog_json_spec(v: JsonModel) -> Result<Seq<(Seq<char>, Seq<char>)>, Seq<char>> {
    match v {
        JsonModel::Object(m) => if m.contains_key("arrayCircuitNameList"@) {
            match m["arrayCircuitNameList"@] {
                JsonModel::Array(items) => Ok(catalog_entries(items)),
                _ => Err("arrayCircuitNameList is not an array"@),
            }
        } else {
            Err("arrayCircuitNameList is not an array"@)
        },
        _ => Err("arrayCircuitNameList is not an array"@),
    }
}

/// The model of a list of catalog circuits.
pub open spec fn catalog_view(v: Seq<CatalogCircuit>) -> Seq<(Seq<char>, Seq<char>)> {
    v.map_values(|c: CatalogCircuit| (c.id@, c.name@))
}

fn field_str_exec<'a>(v: &JsonRef<'a>, k: &str) -> (r: Option<&'a str>)
    ensures
        opt_str_view(r) == field_str(v@, k@),
{
    match v.get(k) {
        Some(f) => f.as_str(),
        None => None,
    }
}

fn catalog_entry_exec(e: &JsonRef) -> (r: Option<CatalogCircuit>)
    ensures
        match catalog_entry(e@) {
            Some(x) => r matches Some(c) && c.id@ == x.0 && c.name@ == x.1,
            None => r is None,
        },
{
    let ghost one = "1"@;
    let is_one = match field_str_exec(e, "strBtnType") {
        Some(t) => {
            let tv = chars_of(t);
            chars_eq_str(tv.as_slice(), "1")
        },
        None => false,
    };
    if !is_one {
        return None;
    }
    let id = match field_str_exec(e, "strId") {
        Some(i) => i,
        None => return None,
    };
    let mut fallback = chars_of("Circuit ");
    append_str(&mut fallback, id);
    let name = match field_str_exec(e, "strCircuit") {
        Some(n) => {
            let nv = chars_of(n);
            if trim(nv.as_slice()).len() > 0 {
                String::from_str(n)
            } else {
                string_of(fallback.as_slice())
            }
        },
        None => string_of(fallback.as_slice()),
    };
    Some(CatalogCircuit { id: String::from_str(id), name })
}

/// The measured circuits (see [`catalog_json_spec`]) of the catalog's
/// `init(...)` argument.
pub fn catalog_from_json(v: &JsonRef) -> (r: Result<Vec<CatalogCircuit>, AisError>)
    ensures
        match catalog_json_spec(v@) {
            Ok(x) => r matches Ok(c) && catalog_view(c@) == x,
            Err(d) => r matches Err(e) && e.kind == ErrorKind::ParseFailed && e.detail@ == d,
        },
{
    let list = match v.get("arrayCircuitNameList") {
        Some(l) => l,
        None => return Err(AisError::parse_failed(String::from_str("arrayCircuitNameList is not an array"))),
    };
    let items = match list.as_array() {
        Some(a) => a,
        None => return Err(AisError::parse_failed(String::from_str("arrayCircuitNameList is not an array"))),
    };
    let ghost models = items@.map_values(|x: JsonRef| x@);
    let mut out: Vec<CatalogCircuit> = Vec::new();
    let mut i: usize = 0;
    while i < items.len()
        invariant
            i <= items@.len(),
            models == items@.map_values(|x: JsonRef| x@),
            catalog_view(out@) == catalog_entries(models.take(i as int)),
        decreases items@.len() - i,
    {
        assert(models.take(i + 1).drop_last() == models.take(i as int));
        assert(models.take(i + 1).last() == items@[i as int]@);
        match catalog_entry_exec(&items[i]) {
            Some(c) => {
                out.push(c);
                assert(catalog_view(out@) =~= catalog_view(out@.drop_last()).push((out@.last().id@, out@.last().name@)));
            },
            None => {},
        }
        i = i + 1;
    }
    proof {
        assert(models.take(items@.len() as int) == models);
        match list@ {
            JsonModel::Array(ms) => { assert(ms =~= models); },
            _ => {},
        }
    }
    Ok(out)
}

/// The text of the first of `texts` that contains `arrayCircuitNameList`.
pub open spec fn first_catalog_script(texts: Seq<Seq<char>>) -> Option<Seq<char>>
    decreases texts.len(),
{
    if texts.len() == 0 {
        None
    } else if contains_spec(texts[0], "arrayCircuitNameList"@) {
        Some(texts[0])
    } else {
        first_catalog_script(texts.drop_first())
    }
}

/// The trimmed text between the first `(` and the last `)` of `t`, when the
/// last `)` follows the first `(`.
pub open spec fn call_argument(t: Seq<char>) -> Option<Seq<char>> {
    match (first_index(t, '('), last_index(t, ')')) {
        (Some(s), Some(e)) => if e > s { Some(trim_spec(t.subrange(s + 1, e))) } else { None },
        _ => None,
    }
}

/// The measured circuits of the circuit catalog page: the JSON argument of the
/// `init(...)` call in the first `<script>` that mentions
/// `arrayCircuitNameList`, read as [`catalog_json_spec`]; or the
/// `parse_failed` detail of the step that fails.
pub open spec fn catalog_spec(h: Seq<char>) -> Result<Seq<(Seq<char>, Seq<char>)>, Seq<char>> {
    let texts = select_spec(h, "script"@).map_values(|n: usize| html_text(h, n));
    match first_catalog_script(texts) {
        None => Err("arrayCircuitNameList script not found on circuit catalog page (firmware mismatch?)"@),
        Some(t) => catalog_script_spec(t),
    }
}

/// The measured circuits of the catalog script text `t`: the JSON argument of
/// its `init(...)` call read as [`catalog_json_spec`], or the `parse_failed`
/// detail of the step that fails.
pub open spec fn catalog_script_spec(t: Seq<char>) -> Result<Seq<(Seq<char>, Seq<char>)>, Seq<char>> {
    match call_argument(t) {
        None => Err("init(...) call not found in circuit catalog script"@),
        Some(a) => match json_parse(a) {
            Err(e) => Err("circuit catalog JSON is invalid: "@ + e),
            Ok(v) => catalog_json_spec(v),
        },
    }
}

fn find_catalog_script(doc: &HtmlDoc) -> (r: Option<Vec<char>>)
    ensures
        match first_catalog_script(select_spec(doc@, "script"@).map_values(|n: usize| html_text(doc@, n))) {
            Some(t) => r matches Some(v) && v@ == t,
            None => r is None,
        },
{
    let ns = doc.select("script");
    let ghost texts = select_spec(doc@, "script"@).map_values(|n: usize| html_text(doc@, n));
    let mut i: usize = 0;
    assert(texts.skip(0) == texts);
    while i < ns.len()
        invariant
            i <= ns@.len(),
            ns@ == select_spec(doc@, "script"@),
            texts == ns@.map_values(|n: usize| html_text(doc@, n)),
            first_catalog_script(texts.skip(i as int)) == first_catalog_script(texts),
        decreases ns@.len() - i,
    {
        assert(texts.skip(i as int).drop_first() == texts.skip(i + 1));
        assert(texts.skip(i as int)[0] == html_text(doc@, ns@[i as int]));
        let t = doc.text(ns[i]);
        let tv = chars_of(t.as_str());
        let key = chars_of("arrayCircuitNameList");
        if contains(tv.as_slice(), key.as_slice()) {
            return Some(tv);
        }
        i = i + 1;
    }
    None
}

/// Extracts the measured circuits (`strBtnType == "1"`) of the circuit catalog page.
pub fn parse_circuit_catalog(html: &str) -> (r: Result<Vec<CatalogCircuit>, AisError>)
    ensures
        match catalog_spec(html@) {
            Ok(x) => r matches Ok(c) && catalog_view(c@) == x,
            Err(d) => r matches Err(e) && e.kind == ErrorKind::ParseFailed && e.detail@ == d,
        },
{
    let doc = parse_html(html);
    let script = match find_catalog_script(&doc) {
        Some(t) => t,
        None => return Err(AisError::parse_failed(String::from_str(
            "arrayCircuitNameList script not found on circuit catalog page (firmware mismatch?)",
        ))),
    };
    catalog_from_script(string_of(script.as_slice()).as_str())
}

/// Reads the measured circuits from the text of the catalog script (see
/// [`catalog_script_spec`]).
pub fn catalog_from_script(script: &str) -> (r: Result<Vec<CatalogCircuit>, AisError>)
    ensures
        match catalog_script_spec(script@) {
            Ok(x) => r matches Ok(c) && catalog_view(c@) == x,
            Err(d) => r matches Err(e) && e.kind == ErrorKind::ParseFailed && e.detail@ == d,
        },
{
    let sv = chars_of(script);
    proof {
        lemma_scan_char(sv@, '(', 0);
    }
    let arg = match (find_char(sv.as_slice(), '('), rfind_char(sv.as_slice(), ')')) {
        (Some(s), Some(e)) => {
            if e > s {
                let a = trim(slice_chars(sv.as_slice(), s + 1, e).as_slice());
                assert(call_argument(sv@) == Some(a@));
                a
            } else {
                return Err(AisError::parse_failed(String::from_str("init(...) call not found in circuit catalog script")));
            }
        },
        _ => return Err(AisError::parse_failed(String::from_str("init(...) call not found in circuit catalog script"))),
    };
    let arg_s = string_of(arg.as_slice());
    let v = match parse_json(arg_s.as_str()) {
        Ok(v) => v,
        Err(e) => {
            let mut d = chars_of("circuit catalog JSON is invalid: ");
            append_str(&mut d, e.as_str());
            return Err(AisError::parse_failed(string_of(d.as_slice())));
        },
    };
    catalog_from_json(&v.as_ref())
}

/// Base64 writes four characters for every started group of three bytes:
/// the output of `n` bytes has `4 * ceil(n / 3)` characters.
pub proof fn lemma_base64_length(s: Seq<u8>)
    ensures
        b64_spec(s).len() == 4 * ((s.len() + 2) / 3),
    decreases s.len(),
{
    if s.len() > 3 {
        lemma_base64_length(s.skip(3));
    }
}

/// Every character of the encoding is from the standard alphabet or the
/// padding `=`, and padding only ends the output.
pub proof fn lemma_base64_alphabet(s: Seq<u8>)
    ensures
        forall|i: int| 0 <= i < b64_spec(s).len() ==> is_b64_char(#[trigger] b64_spec(s)[i]),
        forall|i: int, j: int| 0 <= i < j < b64_spec(s).len() && b64_spec(s)[i] == '=' ==> b64_spec(s)[j] == '=',
    decreases s.len(),
{
    if s.len() > 0 {
        let g = b64_group(s);
        let n: int = s[0] * 65536 + (if s.len() > 1 { s[1] as int } else { 0 }) * 256 + (if s.len() > 2 { s[2] as int } else { 0 });
        assert forall|k: int| 0 <= k < 64 implies is_b64_char(#[trigger] b64_char(k)) by {}
        assert(is_b64_char(g[0]) && is_b64_char(g[1]) && is_b64_char(g[2]) && is_b64_char(g[3])) by {
            assert(0 <= n / 262144 % 64 < 64);
            assert(0 <= n / 4096 % 64 < 64);
            assert(0 <= n / 64 % 64 < 64);
            assert(0 <= n % 64 < 64);
        }
        assert forall|k: int| 0 <= k < 64 implies #[trigger] b64_char(k) != '=' by {}
        assert(g[0] != '=' && g[1] != '=') by {
            assert(0 <= n / 262144 % 64 < 64);
            assert(0 <= n / 4096 % 64 < 64);
        }
        assert(g[2] == '=' ==> g[3] == '=') by {
            assert(0 <= n % 64 < 64);
        }
        if s.len() > 3 {
            lemma_base64_alphabet(s.skip(3));
            let r = b64_spec(s.skip(3));
            assert(s.len() > 1 && s.len() > 2);
            assert(g[2] != '=' && g[3] != '=') by {
                assert(0 <= n / 64 % 64 < 64);
                assert(0 <= n % 64 < 64);
            }
            assert(b64_spec(s) == g + r);
            lemma_base64_length(s.skip(3));
            assert(r.len() > 0);
            assert(r[0] != '=');
        }
    }
}

/// Whether `c` is a character of base64 output: `A-Z a-z 0-9 + /` or `=`.
pub open spec fn is_b64_char(c: char) -> bool {
    ('A' <= c && c <= 'Z') || ('a' <= c && c <= 'z') || ('0' <= c && c <= '9') || c == '+' || c == '/' || c == '='
}

} // verus!

verus! {

/// The value of a base64 character (`A-Z a-z 0-9 + /`); 0 for anything else,
/// padding included.
pub open spec fn b64_value(c: char) -> int {
    if 'A' <= c && c <= 'Z' {
        c as int - 65
    } else if 'a' <= c && c <= 'z' {
        c as int - 71
    } else if '0' <= c && c <= '9' {
        c as int + 4
    } else if c == '+' {
        62
    } else if c == '/' {
        63
    } else {
        0
    }
}

/// The bytes of one group of four base64 characters: three, or fewer when
/// the group ends in padding.
pub open spec fn b64_decode_group(g: Seq<char>) -> Seq<u8> {
    let n: int = b64_value(g[0]) * 262144 + b64_value(g[1]) * 4096 + b64_value(g[2]) * 64 + b64_value(g[3]);
    if g[2] == '=' {
        seq![(n / 65536) as u8]
    } else if g[3] == '=' {
        seq![(n / 65536) as u8, (n / 256 % 256) as u8]
    } else {
        seq![(n / 65536) as u8, (n / 256 % 256) as u8, (n % 256) as u8]
    }
}

/// Standard padded base64 decoding (RFC 4648), four characters at a time.
pub open spec fn b64_decode_spec(t: Seq<char>) -> Seq<u8>
    decreases t.len(),
{
    if t.len() < 4 {
        Seq::empty()
    } else {
        b64_decode_group(t.take(4)) + b64_decode_spec(t.skip(4))
    }
}

proof fn lemma_b64_char_value(k: int)
    requires
        0 <= k < 64,
    ensures
        b64_value(b64_char(k)) == k,
        b64_char(k) != '=',
{
    if k < 26 {
        assert(((65 + k) as u8) as int == 65 + k);
    } else if k < 52 {
        assert(((97 + k - 26) as u8) as int == 97 + k - 26);
    } else if k < 62 {
        assert(((48 + k - 52) as u8) as int == 48 + k - 52);
    }
}

proof fn lemma_b64_digits(n: u32)
    requires
        n < 0x1000000,
    ensures
        (n / 262144 % 64) * 262144 + (n / 4096 % 64) * 4096 + (n / 64 % 64) * 64 + n % 64 == n,
{
    assert((n / 262144 % 64) * 262144 + (n / 4096 % 64) * 4096 + (n / 64 % 64) * 64 + n % 64 == n) by (bit_vector)
        requires
            n < 0x1000000;
}

proof fn lemma_b64_bytes(b0: u8, b1: u8, b2: u8)
    ensures
        ((b0 * 65536 + b1 * 256 + b2) / 65536) as u8 == b0,
        ((b0 * 65536 + b1 * 256 + b2) / 256 % 256) as u8 == b1,
        ((b0 * 65536 + b1 * 256 + b2) % 256) as u8 == b2,
{
    let n: u32 = ((b0 as u32) * 65536 + (b1 as u32) * 256 + (b2 as u32)) as u32;
    assert(n / 65536 == b0 as u32 && n / 256 % 256 == b1 as u32 && n % 256 == b2 as u32) by (bit_vector)
        requires
            n == (b0 as u32) * 65536 + (b1 as u32) * 256 + (b2 as u32);
}

/// Decoding one encoded group gives back its (up to three) bytes.
proof fn lemma_b64_group_round_trip(s: Seq<u8>)
    requires
        s.len() > 0,
    ensures
        b64_decode_group(b64_group(s)) == s.take(if s.len() < 3 { s.len() as int } else { 3 }),
{
    let b0 = s[0];
    let b1: u8 = if s.len() > 1 { s[1] } else { 0 };
    let b2: u8 = if s.len() > 2 { s[2] } else { 0 };
    let n: int = b0 * 65536 + b1 * 256 + b2;
    let nu: u32 = n as u32;
    assert(nu < 0x1000000);
    lemma_b64_digits(nu);
    let g = b64_group(s);
    lemma_b64_char_value(n / 262144 % 64);
    lemma_b64_char_value(n / 4096 % 64);
    lemma_b64_char_value(n / 64 % 64);
    lemma_b64_char_value(n % 64);
    lemma_b64_bytes(b0, b1, b2);
    assert(g[0] == b64_char(n / 262144 % 64));
    if s.len() == 1 {
        assert(n % 65536 == 0 && n / 64 % 64 == 0 && n % 64 == 0) by (nonlinear_arith)
            requires
                n == b0 * 65536,
                0 <= b0 < 256;
        assert(b64_decode_group(g) =~= seq![b0]);
    } else if s.len() == 2 {
        assert(n % 64 == 0) by (nonlinear_arith)
            requires
                n == b0 * 65536 + b1 * 256,
                0 <= b0 < 256,
                0 <= b1 < 256;
        assert(b64_decode_group(g) =~= seq![b0, b1]);
    } else {
        assert(b64_decode_group(g) =~= seq![b0, b1, b2]);
    }
    assert(s.take(if s.len() < 3 { s.len() as int } else { 3 }) =~= b64_decode_group(g));
}

/// Decoding the base64 encoding of any bytes gives them back.
pub proof fn lemma_base64_round_trip(s: Seq<u8>)
    ensures
        b64_decode_spec(b64_spec(s)) == s,
    decreases s.len(),
{
    if s.len() > 0 {
        lemma_b64_group_round_trip(s);
        let g = b64_group(s);
        let e = b64_spec(s);
        if s.len() <= 3 {
            assert(e == g);
            assert(g.take(4) =~= g);
            assert(g.skip(4).len() == 0);
            assert(b64_decode_spec(g.skip(4)) == Seq::<u8>::empty());
            assert(s.take(s.len() as int) =~= s);
            assert(b64_decode_spec(e) =~= s);
        } else {
            let r = b64_spec(s.skip(3));
            lemma_base64_round_trip(s.skip(3));
            assert(e == g + r);
            assert((g + r).take(4) =~= g);
            assert((g + r).skip(4) =~= r);
            assert(s.take(3) + s.skip(3) =~= s);
        }
    }
}

/// Whole groups of three bytes encode on their own: when `a` holds a whole
/// number of groups, the encoding of `a + b` is that of `a` followed by that of `b`.
pub proof fn lemma_base64_concat(a: Seq<u8>, b: Seq<u8>)
    requires
        a.len() % 3 == 0,
    ensures
        b64_spec(a + b) == b64_spec(a) + b64_spec(b),
    decreases a.len(),
{
    if a.len() == 0 {
        assert(a + b =~= b);
    } else if b.len() == 0 {
        assert(a + b =~= a);
    } else {
        let ab = a + b;
        assert(ab.len() > 3);
        assert(ab[0] == a[0] && ab[1] == a[1] && ab[2] == a[2]);
        assert(b64_group(ab) == b64_group(a));
        assert(ab.skip(3) =~= a.skip(3) + b);
        lemma_base64_concat(a.skip(3), b);
        if a.len() == 3 {
            assert(a.skip(3) + b =~= b);
            assert(b64_spec(a) == b64_group(a));
        } else {
            assert(b64_spec(a) == b64_group(a) + b64_spec(a.skip(3)));
        }
        assert(b64_spec(ab) =~= b64_spec(a) + b64_spec(b));
    }
}

} // verus!

verus! {

/// The path of a graph page: `/page/graph/<id>` alone exactly when neither a
/// circuit nor a date is given; otherwise `?data=` follows, with the base64 of
/// the UTF-8 of a JSON object holding `circuitid` (the circuit) when a circuit
/// is given and `day` ([Y, M, D]), `term` ("YYYY/MM/DD") and `termStr` ("day")
/// when a date is given.
pub proof fn lemma_graph_path_query(page_id: u32, circuit_id: Option<Seq<char>>, date: Option<(u32, u32, u32)>)
    ensures
        circuit_id is None && date is None ==> graph_path_spec(page_id, circuit_id, date)
            == "/page/graph/"@ + dec_spec(page_id as nat),
        !(circuit_id is None && date is None) ==> graph_path_spec(page_id, circuit_id, date).len()
            > ("/page/graph/"@ + dec_spec(page_id as nat)).len(),
        circuit_id is Some || date is Some ==> graph_path_spec(page_id, circuit_id, date)
            == "/page/graph/"@ + dec_spec(page_id as nat) + "?data="@ + b64_spec(encode_utf8(json_text(JsonModel::Object({
                let with_circuit = match circuit_id {
                    Some(c) => map!["circuitid"@ => JsonModel::Str(c)],
                    None => Map::empty(),
                };
                match date {
                    Some((y, m, d)) => with_circuit.insert(
                        "day"@,
                        JsonModel::Array(seq![
                            JsonModel::Number { text: dec_spec(y as nat), integer: Some(y as i64) },
                            JsonModel::Number { text: dec_spec(m as nat), integer: Some(m as i64) },
                            JsonModel::Number { text: dec_spec(d as nat), integer: Some(d as i64) },
                        ]),
                    ).insert(
                        "term"@,
                        JsonModel::Str(zero_pad(dec_spec(y as nat), 4) + "/"@ + zero_pad(dec_spec(m as nat), 2) + "/"@
                            + zero_pad(dec_spec(d as nat), 2)),
                    ).insert("termStr"@, JsonModel::Str("day"@)),
                    None => with_circuit,
                }
            })))),
{
    reveal_strlit("?data=");
    if circuit_id is Some {
        let c = circuit_id.unwrap();
        assert(Map::<Seq<char>, JsonModel>::empty().insert("circuitid"@, JsonModel::Str(c))
            =~= map!["circuitid"@ => JsonModel::Str(c)]);
    }
}

} // verus!
