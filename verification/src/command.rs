//! The decisions of the command-line commands. The commands alternate
//! requests to the controller with decisions; the requests run outside the
//! library, which decides what to ask next and what the answers mean.

use vstd::prelude::*;
use crate::error::{AisError, ErrorKind};
use crate::control::{CheckStatus, CheckView, light_change_payload, toggle_change_payload, check_payload,
    light_payload_model, toggle_payload_model, check_payload_model, urlencode, url_spec};
use crate::json::json_text;
use crate::parse::circuits::{Circuit, circuits_view};
use crate::parse::devices::{Device, DeviceView, Panel, devices_view, panels_view, parse_devices_menu_link,
    menu_link_spec, parse_panels, panels_spec, parse_token, token_spec, parse_device_panels,
    device_panels_spec, panel_page_id, page_id_spec};
use crate::text::{chars_of, string_of, append_str, append, dec_u32, dec_spec, digit_char, zero_pad, pad_zero,
    scan_char, lemma_scan_char, slice_chars, chars_eq, chars_eq_str, contains};
use vstd::utf8::encode_utf8;

verus! {

/// The pieces of `s` from position `i` on, split at `sep` (std's `str::split`).
pub open spec fn split_from(s: Seq<char>, sep: char, i: int) -> Seq<Seq<char>>
    decreases s.len() - i,
{
    if i < 0 || i > s.len() {
        Seq::empty()
    } else {
        let j = scan_char(s, sep, i);
        proof { lemma_scan_char(s, sep, i); }
        if j < s.len() {
            seq![s.subrange(i, j)] + split_from(s, sep, j + 1)
        } else {
            seq![s.subrange(i, j)]
        }
    }
}

/// The value of a string of ASCII digits.
pub open spec fn digits_value(d: Seq<char>) -> nat
    decreases d.len(),
{
    if d.len() == 0 {
        0
    } else {
        digits_value(d.drop_last()) * 10 + ((d.last() as u32 - 48) as nat)
    }
}

/// Whether every character of `d` is an ASCII digit.
pub open spec fn is_digits(d: Seq<char>) -> bool {
    forall|i: int| 0 <= i < d.len() ==> '0' <= #[trigger] d[i] && d[i] <= '9'
}

/// What std's `u32::from_str` gives: an optional `+`, then one or more ASCII
/// digits whose value fits in a `u32`.
pub open spec fn u32_parse_spec(s: Seq<char>) -> Option<u32> {
    let d = if s.len() > 0 && s[0] == '+' { s.drop_first() } else { s };
    if d.len() > 0 && is_digits(d) && digits_value(d) <= u32::MAX {
        Some(digits_value(d) as u32)
    } else {
        None
    }
}

proof fn lemma_digits_value_monotone(d: Seq<char>, k: int)
    requires
        0 <= k <= d.len(),
        is_digits(d),
    ensures
        digits_value(d.take(k)) <= digits_value(d),
    decreases d.len() - k,
{
    if k < d.len() {
        lemma_digits_value_monotone(d, k + 1);
        assert(d.take(k + 1).drop_last() == d.take(k));
        assert(d.take(k + 1).last() == d[k]);
    } else {
        assert(d.take(k) == d);
    }
}

/// Parses a `u32` as std does (see [`u32_parse_spec`]).
pub fn parse_u32(s: &[char]) -> (r: Option<u32>)
    ensures
        r == u32_parse_spec(s@),
{
    let start: usize = if s.len() > 0 && s[0] == '+' { 1 } else { 0 };
    let d = slice_chars(s, start, s.len());
    assert(d@ == if s@.len() > 0 && s@[0] == '+' { s@.drop_first() } else { s@ });
    if d.len() == 0 {
        return None;
    }
    let mut v: u64 = 0;
    let mut i: usize = 0;
    while i < d.len()
        invariant
            i <= d@.len(),
            d@.len() > 0,
            d@ == if s@.len() > 0 && s@[0] == '+' { s@.drop_first() } else { s@ },
            is_digits(d@.take(i as int)),
            v == digits_value(d@.take(i as int)),
            v <= u32::MAX,
        decreases d@.len() - i,
    {
        let c = d[i];
        assert(d@.take(i + 1).drop_last() == d@.take(i as int));
        assert(d@.take(i + 1).last() == c);
        if !('0' <= c && c <= '9') {
            assert(d@[i as int] == c);
            assert(!is_digits(d@));
            return None;
        }
        let nv: u64 = v * 10 + ((c as u32 - 48) as u64);
        if nv > 0xffff_ffff {
            proof {
                if is_digits(d@) {
                    lemma_digits_value_monotone(d@, i + 1);
                }
            }
            return None;
        }
        v = nv;
        i = i + 1;
    }
    assert(d@.take(d@.len() as int) == d@);
    Some(v as u32)
}

/// The message of an invalid `--date`.
pub open spec fn date_error(s: Seq<char>) -> Seq<char> {
    "invalid date '"@ + s + "' (expected YYYY-MM-DD)"@
}

/// A `--date` argument: three `-`-separated `u32`s, year 2000..=2099, month
/// 1..=12, day 1..=31.
pub open spec fn date_spec(s: Seq<char>) -> Option<(u32, u32, u32)> {
    let parts = split_from(s, '-', 0);
    if parts.len() != 3 {
        None
    } else {
        match (u32_parse_spec(parts[0]), u32_parse_spec(parts[1]), u32_parse_spec(parts[2])) {
            (Some(y), Some(m), Some(d)) => if 2000 <= y <= 2099 && 1 <= m <= 12 && 1 <= d <= 31 {
                Some((y, m, d))
            } else {
                None
            },
            _ => None,
        }
    }
}

fn split_chars(s: &[char], sep: char) -> (r: Vec<Vec<char>>)
    ensures
        r@.map_values(|v: Vec<char>| v@) == split_from(s@, sep, 0),
{
    let mut out: Vec<Vec<char>> = Vec::new();
    let mut i: usize = 0;
    loop
        invariant_except_break
            i <= s@.len(),
            out@.map_values(|v: Vec<char>| v@) + split_from(s@, sep, i as int) == split_from(s@, sep, 0),
        ensures
            out@.map_values(|v: Vec<char>| v@) == split_from(s@, sep, 0),
        decreases s@.len() - i,
    {
        proof { lemma_scan_char(s@, sep, i as int); }
        let ghost before = out@.map_values(|v: Vec<char>| v@);
        let mut j = i;
        while j < s.len() && s[j] != sep
            invariant
                i <= j <= s@.len(),
                scan_char(s@, sep, j as int) == scan_char(s@, sep, i as int),
            decreases s@.len() - j,
        {
            j = j + 1;
        }
        let piece = slice_chars(s, i, j);
        let ghost pv = piece@;
        out.push(piece);
        assert(out@.map_values(|v: Vec<char>| v@) =~= before.push(pv));
        if j >= s.len() {
            assert(before.push(pv) =~= before + seq![pv]);
            break;
        }
        assert(before.push(pv) + split_from(s@, sep, j + 1) =~= before + (seq![pv] + split_from(s@, sep, j + 1)));
        i = j + 1;
    }
    out
}

/// Parses the `--date` value `YYYY-MM-DD` into (year, month, day).
pub fn parse_date(s: &str) -> (r: Result<(u32, u32, u32), String>)
    ensures
        match date_spec(s@) {
            Some(d) => r == Ok::<(u32, u32, u32), String>(d),
            None => r matches Err(e) && e@ == date_error(s@),
        },
{
    let sv = chars_of(s);
    let parts = split_chars(sv.as_slice(), '-');
    let ghost ps = parts@.map_values(|v: Vec<char>| v@);
    let mut err = chars_of("invalid date '");
    append_str(&mut err, s);
    append_str(&mut err, "' (expected YYYY-MM-DD)");
    if parts.len() != 3 {
        return Err(string_of(err.as_slice()));
    }
    assert(ps[0] == parts@[0]@ && ps[1] == parts@[1]@ && ps[2] == parts@[2]@);
    let y = parse_u32(parts[0].as_slice());
    let m = parse_u32(parts[1].as_slice());
    let d = parse_u32(parts[2].as_slice());
    match (y, m, d) {
        (Some(y), Some(m), Some(d)) => {
            if 2000 <= y && y <= 2099 && 1 <= m && m <= 12 && 1 <= d && d <= 31 {
                Ok((y, m, d))
            } else {
                Err(string_of(err.as_slice()))
            }
        },
        _ => Err(string_of(err.as_slice())),
    }
}

/// `YYYY-MM-DD` (zero padded) of a date.
pub open spec fn date_text_spec(y: u32, m: u32, d: u32) -> Seq<char> {
    zero_pad(dec_spec(y as nat), 4) + "-"@ + zero_pad(dec_spec(m as nat), 2) + "-"@ + zero_pad(dec_spec(d as nat), 2)
}

/// The date of an energy report: `YYYY-MM-DD`.
pub fn date_text(y: u32, m: u32, d: u32) -> (r: String)
    ensures
        r@ == date_text_spec(y, m, d),
{
    let mut t = pad_zero(dec_u32(y), 4);
    append_str(&mut t, "-");
    append(&mut t, pad_zero(dec_u32(m), 2).as_slice());
    append_str(&mut t, "-");
    append(&mut t, pad_zero(dec_u32(d), 2).as_slice());
    string_of(t.as_slice())
}

/// The path `ais fetch` reads: the page as given when it starts with `/`,
/// else with `/` put in front.
pub fn page_path(page: &str) -> (r: String)
    ensures
        r@ == if page@.len() > 0 && page@[0] == '/' { page@ } else { "/"@ + page@ },
{
    let pv = chars_of(page);
    if pv.len() > 0 && pv[0] == '/' {
        String::from_str(page)
    } else {
        let mut t = chars_of("/");
        append(&mut t, pv.as_slice());
        proof { reveal_strlit("/"); }
        string_of(t.as_slice())
    }
}

/// How many circuit pages are read at most (the controller has a few dozen
/// measured circuits at most; this is a safety valve).
pub const CIRCUIT_PAGE_LIMIT: u32 = 10;

/// The path of circuit page `page`.
pub fn circuit_page_path(page: u32) -> (r: String)
    ensures
        r@ == "/page/electricflow/1113?id="@ + dec_spec(page as nat) + "&request_by_form=1"@,
{
    let mut t = chars_of("/page/electricflow/1113?id=");
    append(&mut t, dec_u32(page).as_slice());
    append_str(&mut t, "&request_by_form=1");
    string_of(t.as_slice())
}

/// What a circuit page means for the scan.
pub enum PageStep {
    /// The scan fails.
    Fail(AisError),
    /// The list is over; the page adds nothing.
    Stop,
    /// The page's entries are added; `last` when they reach a zero (or
    /// unmeasured) reading, past which nothing is listed.
    Take { last: bool },
}

/// Whether some entry reads zero watts, an unmeasured entry counting as zero.
pub open spec fn reaches_zero(v: Seq<(Seq<char>, Option<i64>)>) -> bool {
    exists|i: int| 0 <= i < v.len() && match #[trigger] v[i].1 { Some(w) => w == 0, None => true }
}

fn circuits_equal(a: &Vec<Circuit>, b: &Vec<Circuit>) -> (r: bool)
    ensures
        r == (circuits_view(a@) == circuits_view(b@)),
{
    if a.len() != b.len() {
        assert(circuits_view(a@).len() != circuits_view(b@).len());
        return false;
    }
    let mut i: usize = 0;
    while i < a.len()
        invariant
            a@.len() == b@.len(),
            i <= a@.len(),
            forall|k: int| 0 <= k < i ==> circuits_view(a@)[k] == circuits_view(b@)[k],
        decreases a@.len() - i,
    {
        let na = chars_of(a[i].name.as_str());
        let nb = chars_of(b[i].name.as_str());
        if !chars_eq(na.as_slice(), nb.as_slice()) || a[i].power_w != b[i].power_w {
            assert(circuits_view(a@)[i as int] != circuits_view(b@)[i as int]);
            return false;
        }
        i = i + 1;
    }
    assert(circuits_view(a@) =~= circuits_view(b@));
    true
}

/// Decides on circuit page `page` given its entries and those of the page
/// before: an empty first page is a selector mismatch (`parse_failed`); an
/// empty page, or one equal to the page before, ends the list; otherwise the
/// entries are added, and the list ends after them when one reads zero.
pub fn circuit_page_step(page: u32, entries: &Vec<Circuit>, prev: &Vec<Circuit>) -> (r: PageStep)
    ensures
        page == 1 && entries@.len() == 0 ==> (r matches PageStep::Fail(e) && e.kind == ErrorKind::ParseFailed
            && e.detail@ == "no circuit entries found on electricflow/1113 (firmware mismatch?)"@),
        page != 1 && entries@.len() == 0 ==> r is Stop,
        entries@.len() > 0 && circuits_view(entries@) == circuits_view(prev@) ==> r is Stop,
        entries@.len() > 0 && circuits_view(entries@) != circuits_view(prev@) ==> (r matches PageStep::Take { last }
            && last == reaches_zero(circuits_view(entries@))),
{
    if page == 1 && entries.len() == 0 {
        return PageStep::Fail(AisError::parse_failed(String::from_str(
            "no circuit entries found on electricflow/1113 (firmware mismatch?)",
        )));
    }
    if entries.len() == 0 || circuits_equal(entries, prev) {
        return PageStep::Stop;
    }
    let mut i: usize = 0;
    while i < entries.len()
        invariant
            i <= entries@.len(),
            entries@.len() > 0,
            circuits_view(entries@) != circuits_view(prev@),
            forall|k: int| 0 <= k < i ==> match #[trigger] circuits_view(entries@)[k].1 { Some(w) => w != 0, None => false },
        decreases entries@.len() - i,
    {
        let zero = match entries[i].power_w {
            Some(w) => w == 0,
            None => true,
        };
        if zero {
            assert(match circuits_view(entries@)[i as int].1 { Some(w) => w == 0, None => true });
            return PageStep::Take { last: true };
        }
        i = i + 1;
    }
    PageStep::Take { last: false }
}

/// How many devices a device page shows at most (fewer means the last page).
pub const DEVICES_PER_PAGE: usize = 8;
/// How many pages of one kind are read at most (a safety valve).
pub const DEVICE_PAGE_LIMIT: u32 = 10;

/// The device-control link of the top page, or a `parse_failed` error.
pub fn devices_menu(index_html: &str) -> (r: Result<String, AisError>)
    ensures
        match menu_link_spec(index_html@) {
            Some(l) => r matches Ok(s) && s@ == l,
            None => r matches Err(e) && e.kind == ErrorKind::ParseFailed
                && e.detail@ == "devices menu link not found on top page (firmware mismatch?)"@,
        },
{
    match parse_devices_menu_link(index_html) {
        Some(l) => Ok(l),
        None => Err(AisError::parse_failed(String::from_str("devices menu link not found on top page (firmware mismatch?)"))),
    }
}

/// The kind panels of the device-control list, or a `parse_failed` error when
/// there is none.
pub fn device_kind_panels(html: &str) -> (r: Result<Vec<Panel>, AisError>)
    ensures
        panels_spec(html@).len() > 0 ==> (r matches Ok(p) && panels_view(p@) == panels_spec(html@)),
        panels_spec(html@).len() == 0 ==> (r matches Err(e) && e.kind == ErrorKind::ParseFailed
            && e.detail@ == "no device panels found on device control page (firmware mismatch?)"@),
{
    let panels = parse_panels(html);
    if panels.len() == 0 {
        return Err(AisError::parse_failed(String::from_str("no device panels found on device control page (firmware mismatch?)")));
    }
    Ok(panels)
}

/// The path of page `page` of the kind whose individual link is `link`.
pub open spec fn device_page_path_spec(link: Seq<char>, page: u32) -> Seq<char> {
    "/page/devices/device/"@ + link + (if link.contains('?') { "&"@ } else { "?"@ }) + "individual_page="@
        + dec_spec(page as nat)
}

/// The path of page `page` of a kind (`individual_page=<page>` is added to its link).
pub fn device_page_path(link: &str, page: u32) -> (r: String)
    ensures
        r@ == device_page_path_spec(link@, page),
{
    let lv = chars_of(link);
    let mut t = chars_of("/page/devices/device/");
    append(&mut t, lv.as_slice());
    let q = chars_of("?");
    proof { reveal_strlit("?"); }
    let has_q = contains(lv.as_slice(), q.as_slice());
    proof {
        assert(q@ == seq!['?']);
        if has_q {
            let i = choose|i: int| crate::text::occurs_at(lv@, q@, i);
            assert(lv@.subrange(i, i + 1)[0] == lv@[i]);
        }
        if link@.contains('?') {
            let i = choose|i: int| 0 <= i < link@.len() && link@[i] == '?';
            assert(lv@.subrange(i, i + 1) =~= q@);
            assert(crate::text::occurs_at(lv@, q@, i));
        }
    }
    if has_q { append_str(&mut t, "&"); } else { append_str(&mut t, "?"); }
    append_str(&mut t, "individual_page=");
    append(&mut t, dec_u32(page).as_slice());
    string_of(t.as_slice())
}

fn device_eq(a: &Device, b: &Device) -> (r: bool)
    ensures
        r == (a@ == b@),
{
    let fields_equal = str_eq(&a.id, &b.id) && str_eq(&a.name, &b.name) && str_eq(&a.kind, &b.kind)
        && str_eq(&a.state, &b.state) && str_eq(&a.node_id, &b.node_id) && str_eq(&a.eoj, &b.eoj)
        && str_eq(&a.dev_type, &b.dev_type) && str_eq(&a.link, &b.link) && str_eq(&a.token, &b.token);
    let attrs_equal = match (&a.state_attr, &b.state_attr) {
        (Some(x), Some(y)) => str_eq(x, y),
        (None, None) => true,
        _ => false,
    };
    fields_equal && attrs_equal
}

fn str_eq(a: &String, b: &String) -> (r: bool)
    ensures
        r == (a@ == b@),
{
    a.eq(b)
}

fn devices_equal(a: &Vec<Device>, b: &Vec<Device>) -> (r: bool)
    ensures
        r == (devices_view(a@) == devices_view(b@)),
{
    if a.len() != b.len() {
        assert(devices_view(a@).len() != devices_view(b@).len());
        return false;
    }
    let mut i: usize = 0;
    while i < a.len()
        invariant
            a@.len() == b@.len(),
            i <= a@.len(),
            forall|k: int| 0 <= k < i ==> devices_view(a@)[k] == devices_view(b@)[k],
        decreases a@.len() - i,
    {
        if !device_eq(&a[i], &b[i]) {
            assert(devices_view(a@)[i as int] != devices_view(b@)[i as int]);
            return false;
        }
        i = i + 1;
    }
    assert(devices_view(a@) =~= devices_view(b@));
    true
}

/// A device of a page with the kind, control page id and token filled in.
pub open spec fn fill_device(d: DeviceView, kind: Seq<char>, link: Seq<char>, token: Seq<char>) -> DeviceView {
    DeviceView { kind, link, token, ..d }
}

/// The devices of a page with the kind, control page id and token filled in.
pub open spec fn fill_devices(ds: Seq<DeviceView>, kind: Seq<char>, link: Seq<char>, token: Seq<char>) -> Seq<DeviceView> {
    ds.map_values(|d: DeviceView| fill_device(d, kind, link, token))
}

/// The token of a device page, or the empty string.
pub open spec fn token_or_empty(h: Seq<char>) -> Seq<char> {
    match token_spec(h) {
        Some(t) => t,
        None => Seq::empty(),
    }
}

/// The walk over the pages of every device kind.
pub struct DeviceScan {
    panels: Vec<Panel>,
    panel: usize,
    page: u32,
    prev: Vec<Device>,
    found: Vec<Device>,
}

/// The abstract state of a [`DeviceScan`].
pub ghost struct ScanView {
    /// The kind panels (kind, individual link)
    pub panels: Seq<(Seq<char>, Seq<char>)>,
    /// The kind being read; all kinds are done when it reaches `panels.len()`
    pub panel: int,
    /// The page of that kind to read next (1-based)
    pub page: int,
    /// The devices of the page read before, as parsed
    pub prev: Seq<DeviceView>,
    /// The devices found so far, with kind, link and token filled in
    pub found: Seq<DeviceView>,
}

impl View for DeviceScan {
    type V = ScanView;

    closed spec fn view(&self) -> ScanView {
        ScanView {
            panels: panels_view(self.panels@),
            panel: self.panel as int,
            page: self.page as int,
            prev: devices_view(self.prev@),
            found: devices_view(self.found@),
        }
    }
}

/// How many reads the scan may still make at most.
pub open spec fn scan_budget(v: ScanView) -> int {
    (v.panels.len() - v.panel) * DEVICE_PAGE_LIMIT - (v.page - 1)
}

/// The state after the kind being read is done.
pub open spec fn next_kind(v: ScanView) -> ScanView {
    ScanView { panel: v.panel + 1, page: 1, prev: Seq::empty(), ..v }
}

/// The state after reading a page with the parsed devices `ds` and token `t`:
/// an empty page, or one equal to the page before, ends the kind; otherwise
/// the devices are added with the kind's name, its page id and the token, and
/// the kind ends on a short page or at the page limit.
pub open spec fn scan_step(v: ScanView, ds: Seq<DeviceView>, t: Seq<char>) -> ScanView {
    if ds.len() == 0 || ds == v.prev {
        next_kind(v)
    } else {
        let (kind, link) = v.panels[v.panel];
        let w = ScanView { prev: ds, found: v.found + fill_devices(ds, kind, page_id_spec(link), t), ..v };
        if ds.len() < DEVICES_PER_PAGE || v.page >= DEVICE_PAGE_LIMIT {
            next_kind(w)
        } else {
            ScanView { page: v.page + 1, ..w }
        }
    }
}

impl DeviceScan {
    /// Well-formed: the kind index within the panels, the page within the limit.
    pub closed spec fn wf(&self) -> bool {
        &&& self.panel <= self.panels@.len()
        &&& 1 <= self.page <= DEVICE_PAGE_LIMIT
    }

    /// A scan over `panels`, starting at page 1 of the first kind.
    pub fn new(panels: Vec<Panel>) -> (r: DeviceScan)
        ensures
            r.wf(),
            r@ == (ScanView { panels: panels_view(panels@), panel: 0, page: 1, prev: Seq::empty(), found: Seq::empty() }),
    {
        let r = DeviceScan { panels, panel: 0, page: 1, prev: Vec::new(), found: Vec::new() };
        assert(devices_view(r.prev@) =~= Seq::empty());
        assert(devices_view(r.found@) =~= Seq::empty());
        r
    }

    /// The page to read next, or `None` when every kind is done.
    pub fn next_path(&self) -> (r: Option<String>)
        requires
            self.wf(),
        ensures
            self@.panel < self@.panels.len() ==> (r matches Some(p)
                && p@ == device_page_path_spec(self@.panels[self@.panel].1, self@.page as u32)),
            self@.panel >= self@.panels.len() ==> r is None,
    {
        if self.panel < self.panels.len() {
            Some(device_page_path(self.panels[self.panel].link.as_str(), self.page))
        } else {
            None
        }
    }

    /// Reads one device page (the one [`DeviceScan::next_path`] gave).
    pub fn feed(&mut self, html: &str)
        requires
            old(self).wf(),
            old(self)@.panel < old(self)@.panels.len(),
        ensures
            final(self).wf(),
            final(self)@ == scan_step(old(self)@, device_panels_spec(html@), token_or_empty(html@)),
            scan_budget(final(self)@) < scan_budget(old(self)@),
            scan_budget(final(self)@) >= 0,
    {
        let token = match parse_token(html) {
            Some(t) => t,
            None => String::new(),
        };
        let mut ds = parse_device_panels(html);
        let ghost v = self@;
        let panel_idx = self.panel;
        let page = self.page;
        let n_panels = self.panels.len();
        assert(panel_idx < n_panels);
        if ds.len() == 0 || devices_equal(&ds, &self.prev) {
            self.panel = panel_idx + 1;
            self.page = 1;
            self.prev = Vec::new();
            assert(devices_view(self.prev@) =~= Seq::empty());
            assert(self@ == next_kind(v));
            assert(scan_budget(self@) < scan_budget(v)) by (nonlinear_arith)
                requires
                    scan_budget(self@) == (v.panels.len() - v.panel - 1) * DEVICE_PAGE_LIMIT,
                    scan_budget(v) == (v.panels.len() - v.panel) * DEVICE_PAGE_LIMIT - (v.page - 1),
                    1 <= v.page <= DEVICE_PAGE_LIMIT;
            return;
        }
        let last_page = ds.len() < DEVICES_PER_PAGE || page >= DEVICE_PAGE_LIMIT;
        let mut prev: Vec<Device> = Vec::new();
        let panel = &self.panels[self.panel];
        let page_id = panel_page_id(panel.link.as_str());
        let ghost kind = panel.kind@;
        let ghost link = page_id_spec(panel.link@);
        let ghost parsed = devices_view(ds@);
        let mut filled: Vec<Device> = Vec::new();
        let mut i: usize = 0;
        while i < ds.len()
            invariant
                i <= ds@.len(),
                parsed == devices_view(ds@),
                kind == panel.kind@,
                link == page_id@,
                prev@.len() == i,
                filled@.len() == i,
                forall|k: int| 0 <= k < i ==> (#[trigger] prev@[k])@ == parsed[k],
                forall|k: int| 0 <= k < i ==> (#[trigger] filled@[k])@ == fill_device(parsed[k], kind, link, token@),
            decreases ds@.len() - i,
        {
            let d = ds[i].copy();
            prev.push(d);
            let mut e = ds[i].copy();
            e.kind = panel.kind.clone();
            e.link = String::from_str(page_id);
            e.token = token.clone();
            filled.push(e);
            i = i + 1;
        }
        let ghost before_found = devices_view(self.found@);
        let ghost panels0 = self.panels@;
        let ghost prev0 = self.prev@;
        let mut j: usize = 0;
        while j < filled.len()
            invariant
                j <= filled@.len(),
                self.panels@ == panels0,
                self.prev@ == prev0,
                self.panel == panel_idx,
                self.page == page,
                devices_view(self.found@) == before_found + devices_view(filled@).take(j as int),
            decreases filled@.len() - j,
        {
            let e = filled[j].copy();
            let ghost old_found = self.found@;
            self.found.push(e);
            assert(devices_view(self.found@) =~= devices_view(old_found).push(filled@[j as int]@));
            assert(devices_view(filled@).take(j + 1) == devices_view(filled@).take(j as int).push(devices_view(filled@)[j as int]));
            assert(devices_view(self.found@) =~= before_found + devices_view(filled@).take(j + 1));
            j = j + 1;
        }
        assert(devices_view(filled@).take(filled@.len() as int) =~= fill_devices(parsed, kind, link, token@));
        assert(devices_view(prev@) =~= parsed);
        self.prev = prev;
        if last_page {
            self.panel = panel_idx + 1;
            self.page = 1;
            self.prev = Vec::new();
            assert(devices_view(self.prev@) =~= Seq::empty());
            assert(scan_budget(self@) < scan_budget(v)) by (nonlinear_arith)
                requires
                    scan_budget(self@) == (v.panels.len() - v.panel - 1) * DEVICE_PAGE_LIMIT,
                    scan_budget(v) == (v.panels.len() - v.panel) * DEVICE_PAGE_LIMIT - (v.page - 1),
                    1 <= v.page <= DEVICE_PAGE_LIMIT;
        } else {
            self.page = page + 1;
        }
        proof {
            let ds_spec = device_panels_spec(html@);
            assert(parsed == ds_spec);
            assert(token@ == token_or_empty(html@));
            assert(ds_spec.len() != 0 && ds_spec != v.prev);
            assert(v.panels[v.panel] == (kind, panel.link@));
            assert(self@.found == v.found + fill_devices(ds_spec, kind, page_id_spec(panel.link@), token@));
            assert(self@.panels == v.panels);
        }
        assert(self@ == scan_step(v, device_panels_spec(html@), token_or_empty(html@)));
    }

    /// The devices found.
    pub fn finish(self) -> (r: Vec<Device>)
        ensures
            devices_view(r@) == self@.found,
    {
        self.found
    }
}

/// Whether device `d` answers to `q`: by id, by name or by node id.
pub open spec fn device_matches(d: DeviceView, q: Seq<char>) -> bool {
    d.id == q || d.name == q || d.node_id == q
}

/// The indices of the devices that answer to `q`, in order.
pub open spec fn matching_indices(ds: Seq<DeviceView>, q: Seq<char>) -> Seq<int>
    decreases ds.len(),
{
    if ds.len() == 0 {
        Seq::empty()
    } else {
        let rest = matching_indices(ds.drop_last(), q);
        if device_matches(ds.last(), q) { rest.push(ds.len() - 1) } else { rest }
    }
}

/// `parts` joined with `sep` between them.
pub open spec fn join_spec(parts: Seq<Seq<char>>, sep: Seq<char>) -> Seq<char>
    decreases parts.len(),
{
    if parts.len() == 0 {
        Seq::empty()
    } else if parts.len() == 1 {
        parts[0]
    } else {
        join_spec(parts.drop_last(), sep) + sep + parts.last()
    }
}

/// The device a query names: exactly one device must answer to it; none is
/// `device_not_found`, several are `device_ambiguous` (the detail lists their ids).
pub open spec fn select_spec(ds: Seq<DeviceView>, q: Seq<char>) -> Result<int, (ErrorKind, Seq<char>)> {
    let m = matching_indices(ds, q);
    if m.len() == 0 {
        Err((ErrorKind::DeviceNotFound, "device not found in control list: "@ + q))
    } else if m.len() == 1 {
        Ok(m[0])
    } else {
        Err((ErrorKind::DeviceAmbiguous, "multiple devices match '"@ + q + "': "@
            + join_spec(m.map_values(|i: int| ds[i].id), ", "@) + " (specify by id)"@))
    }
}

proof fn lemma_matching_indices_prefix(ds: Seq<DeviceView>, q: Seq<char>, i: int)
    requires
        0 <= i < ds.len(),
    ensures
        matching_indices(ds.take(i + 1), q) == if device_matches(ds[i], q) {
            matching_indices(ds.take(i), q).push(i)
        } else {
            matching_indices(ds.take(i), q)
        },
{
    assert(ds.take(i + 1).drop_last() == ds.take(i));
}

/// Finds the one device that answers to `query`.
pub fn select_device(all: &Vec<Device>, query: &str) -> (r: Result<usize, AisError>)
    ensures
        match select_spec(devices_view(all@), query@) {
            Ok(i) => r == Ok::<usize, AisError>(i as usize),
            Err((k, d)) => r matches Err(e) && e.kind == k && e.detail@ == d,
        },
{
    let ghost ds = devices_view(all@);
    let qv = chars_of(query);
    let mut idx: Vec<usize> = Vec::new();
    let mut i: usize = 0;
    while i < all.len()
        invariant
            i <= all@.len(),
            ds == devices_view(all@),
            qv@ == query@,
            idx@.map_values(|x: usize| x as int) == matching_indices(ds.take(i as int), query@),
        decreases all@.len() - i,
    {
        proof { lemma_matching_indices_prefix(ds, query@, i as int); }
        let d = &all[i];
        let hit = chars_eq_str(qv.as_slice(), d.id.as_str()) || chars_eq_str(qv.as_slice(), d.name.as_str())
            || chars_eq_str(qv.as_slice(), d.node_id.as_str());
        assert(ds[i as int] == all@[i as int]@);
        let ghost before = idx@.map_values(|x: usize| x as int);
        if hit {
            idx.push(i);
            assert(idx@.map_values(|x: usize| x as int) =~= before.push(i as int));
        }
        i = i + 1;
    }
    assert(ds.take(all@.len() as int) == ds);
    let ghost m = matching_indices(ds, query@);
    assert(idx@.len() == m.len());
    if idx.len() == 0 {
        let mut d = chars_of("device not found in control list: ");
        append_str(&mut d, query);
        return Err(AisError::new(ErrorKind::DeviceNotFound, string_of(d.as_slice())));
    }
    if idx.len() == 1 {
        assert(m[0] == idx@[0] as int);
        return Ok(idx[0]);
    }
    proof { lemma_matching_indices_exact(ds, query@); }
    let mut ids: Vec<char> = Vec::new();
    let mut k: usize = 0;
    while k < idx.len()
        invariant
            k <= idx@.len(),
            idx@.len() == m.len(),
            m == matching_indices(ds, query@),
            ds == devices_view(all@),
            idx@.map_values(|x: usize| x as int) == m,
            forall|t: int| 0 <= t < m.len() ==> 0 <= #[trigger] m[t] < ds.len(),
            ids@ == join_spec(m.take(k as int).map_values(|i: int| ds[i].id), ", "@),
        decreases idx@.len() - k,
    {
        let ghost parts = m.take(k as int + 1).map_values(|i: int| ds[i].id);
        assert(parts.drop_last() =~= m.take(k as int).map_values(|i: int| ds[i].id));
        assert(m[k as int] == idx@[k as int] as int);
        if k > 0 {
            append_str(&mut ids, ", ");
        } else {
            assert(m.take(0).map_values(|i: int| ds[i].id).len() == 0);
        }
        append_str(&mut ids, all[idx[k]].id.as_str());
        assert(ids@ =~= join_spec(parts, ", "@));
        k = k + 1;
    }
    assert(m.take(m.len() as int) == m);
    let mut d = chars_of("multiple devices match '");
    append_str(&mut d, query);
    append_str(&mut d, "': ");
    append(&mut d, ids.as_slice());
    append_str(&mut d, " (specify by id)");
    Err(AisError::new(ErrorKind::DeviceAmbiguous, string_of(d.as_slice())))
}

/// The kind name of lighting devices, which take an explicit on/off.
pub open spec fn lighting_kind() -> Seq<char> {
    "照明"@
}

/// The wanted state as text.
pub open spec fn requested_spec(on: bool) -> Seq<char> {
    if on { "on"@ } else { "off"@ }
}

/// What to do to bring a device to the wanted state.
pub enum ControlPlan {
    /// A toggle device is already in the wanted state: nothing is sent.
    Unchanged,
    /// The request cannot be made.
    Fail(AisError),
    /// Post `body` to `path`.
    Send { path: String, body: String },
}

/// The change request of a device: lighting sends the wanted state, a toggle
/// device its current state; the body is `data=` and the URL-encoded payload.
pub open spec fn change_body_spec(d: DeviceView, on: bool) -> Seq<char> {
    let payload = if d.kind == lighting_kind() {
        json_text(light_payload_model(d.token, d, on))
    } else {
        json_text(toggle_payload_model(d.token, d))
    };
    "data="@ + url_spec(encode_utf8(payload))
}

/// Plans the control of `device` towards `on`: a toggle device already in the
/// wanted state needs nothing (toggles flip on every request); without a
/// control token nothing can be sent (`parse_failed`); otherwise the change
/// request goes to `/action/devices/device/<link>/change`.
pub fn plan_control(device: &Device, on: bool) -> (r: ControlPlan)
    ensures
        device@.kind != lighting_kind() && device@.state == requested_spec(on) ==> r is Unchanged,
        !(device@.kind != lighting_kind() && device@.state == requested_spec(on)) && device@.token.len() == 0
            ==> (r matches ControlPlan::Fail(e) && e.kind == ErrorKind::ParseFailed
                && e.detail@ == "control token not found on device page (firmware mismatch?)"@),
        !(device@.kind != lighting_kind() && device@.state == requested_spec(on)) && device@.token.len() > 0
            ==> (r matches ControlPlan::Send { path, body }
                && path@ == "/action/devices/device/"@ + device@.link + "/change"@
                && body@ == change_body_spec(device@, on)),
{
    let kv = chars_of(device.kind.as_str());
    let is_light = chars_eq_str(kv.as_slice(), "照明");
    let sv = chars_of(device.state.as_str());
    let at_state = if on { chars_eq_str(sv.as_slice(), "on") } else { chars_eq_str(sv.as_slice(), "off") };
    if !is_light && at_state {
        return ControlPlan::Unchanged;
    }
    let tv = chars_of(device.token.as_str());
    if tv.len() == 0 {
        return ControlPlan::Fail(AisError::parse_failed(String::from_str(
            "control token not found on device page (firmware mismatch?)",
        )));
    }
    let payload = if is_light {
        light_change_payload(device.token.as_str(), device, on)
    } else {
        toggle_change_payload(device.token.as_str(), device)
    };
    let mut body = chars_of("data=");
    append_str(&mut body, urlencode(payload.as_str()).as_str());
    let mut path = chars_of("/action/devices/device/");
    append_str(&mut path, device.link.as_str());
    append_str(&mut path, "/change");
    ControlPlan::Send { path: string_of(path.as_slice()), body: string_of(body.as_slice()) }
}

/// The outcome of `ais on` / `ais off`.
#[derive(Debug)]
pub struct ControlResult {
    pub id: String,
    pub name: String,
    pub kind: String,
    pub requested: &'static str,
    pub result: &'static str,
    /// Whether the controller confirmed completion (a synchronous answer without
    /// acceptId counts as confirmed)
    pub confirmed: bool,
    /// Whether a control request was sent (false when the device was already
    /// in the wanted state)
    pub changed: bool,
}

/// The outcome for `device`: the wanted state, result "ok", and whether it was
/// confirmed and changed.
pub fn control_result(device: &Device, on: bool, confirmed: bool, changed: bool) -> (r: ControlResult)
    ensures
        r.id@ == device@.id,
        r.name@ == device@.name,
        r.kind@ == device@.kind,
        r.requested@ == requested_spec(on),
        r.result@ == "ok"@,
        r.confirmed == confirmed,
        r.changed == changed,
{
    ControlResult {
        id: device.id.clone(),
        name: device.name.clone(),
        kind: device.kind.clone(),
        requested: if on { "on" } else { "off" },
        result: "ok",
        confirmed,
        changed,
    }
}

/// How many completion checks are made at most.
pub const CHECK_POLL_MAX: u32 = 6;

/// The path of the completion check of `device`.
pub fn check_path(device: &Device) -> (r: String)
    ensures
        r@ == "/data/devices/device/"@ + device@.link + "/check"@,
{
    let mut p = chars_of("/data/devices/device/");
    append_str(&mut p, device.link.as_str());
    append_str(&mut p, "/check");
    string_of(p.as_slice())
}

/// The body of the completion check of `accept_id` for `device`.
pub fn check_body(device: &Device, accept_id: &str) -> (r: String)
    ensures
        r@ == "data="@ + url_spec(encode_utf8(json_text(check_payload_model(accept_id@, device@.dev_type)))),
{
    let payload = check_payload(accept_id, device.dev_type.as_str());
    let mut b = chars_of("data=");
    append_str(&mut b, urlencode(payload.as_str()).as_str());
    string_of(b.as_slice())
}

/// What a check answer means.
pub enum PollStep {
    /// The control completed.
    Confirmed,
    /// Still running: check again.
    Again,
    /// The control failed or stayed unconfirmed.
    Fail(AisError),
}

/// Decides on check number `attempt` (1-based): done confirms, a failure code
/// is `control_rejected`, still running asks again unless this was the last
/// allowed check, which is `control_rejected` too.
pub fn poll_step(status: CheckStatus, attempt: u32, accept_id: &str) -> (r: PollStep)
    ensures
        status@ == CheckView::Done ==> r is Confirmed,
        status@ matches CheckView::Failed(code) ==> (r matches PollStep::Fail(e) && e.kind == ErrorKind::ControlRejected
            && e.detail@ == "control result check failed (result: "@ + code + ")"@),
        status@ == CheckView::InProgress && attempt < CHECK_POLL_MAX ==> r is Again,
        status@ == CheckView::InProgress && attempt >= CHECK_POLL_MAX ==> (r matches PollStep::Fail(e)
            && e.kind == ErrorKind::ControlRejected
            && e.detail@ == "control result unconfirmed after 6 checks (acceptId: "@ + accept_id@ + ")"@),
{
    match status {
        CheckStatus::Done => PollStep::Confirmed,
        CheckStatus::InProgress => {
            if attempt < CHECK_POLL_MAX {
                PollStep::Again
            } else {
                let mut d = chars_of("control result unconfirmed after 6 checks (acceptId: ");
                append_str(&mut d, accept_id);
                append_str(&mut d, ")");
                PollStep::Fail(AisError::new(ErrorKind::ControlRejected, string_of(d.as_slice())))
            }
        },
        CheckStatus::Failed(code) => {
            let mut d = chars_of("control result check failed (result: ");
            append_str(&mut d, code.as_str());
            append_str(&mut d, ")");
            PollStep::Fail(AisError::new(ErrorKind::ControlRejected, string_of(d.as_slice())))
        },
    }
}

proof fn lemma_matching_indices_exact(ds: Seq<DeviceView>, q: Seq<char>)
    ensures
        forall|k: int| 0 <= k < matching_indices(ds, q).len() ==> 0 <= #[trigger] matching_indices(ds, q)[k] < ds.len()
            && device_matches(ds[matching_indices(ds, q)[k]], q),
        forall|j: int| 0 <= j < ds.len() && device_matches(#[trigger] ds[j], q) ==> matching_indices(ds, q).contains(j),
    decreases ds.len(),
{
    if ds.len() > 0 {
        let rest = ds.drop_last();
        lemma_matching_indices_exact(rest, q);
        let mr = matching_indices(rest, q);
        let m = matching_indices(ds, q);
        assert forall|k: int| 0 <= k < m.len() implies 0 <= #[trigger] m[k] < ds.len() && device_matches(ds[m[k]], q) by {
            if k < mr.len() {
                assert(m[k] == mr[k]);
                assert(ds[mr[k]] == rest[mr[k]]);
            }
        }
        assert forall|j: int| 0 <= j < ds.len() && device_matches(#[trigger] ds[j], q) implies m.contains(j) by {
            if j < ds.len() - 1 {
                assert(rest[j] == ds[j]);
                let k = choose|k: int| 0 <= k < mr.len() && mr[k] == j;
                assert(m[k] == j);
            } else {
                assert(m[m.len() - 1] == j);
            }
        }
    }
}

/// A device query succeeds exactly when one device answers to it, and then
/// the selected device is that one: it answers to the query by id, name or
/// node id, and no other device does.
pub proof fn lemma_select_device_unique(ds: Seq<DeviceView>, q: Seq<char>)
    ensures
        select_spec(ds, q) matches Ok(i) ==> 0 <= i < ds.len() && device_matches(ds[i], q)
            && forall|j: int| 0 <= j < ds.len() && j != i ==> !device_matches(#[trigger] ds[j], q),
        (forall|j: int| 0 <= j < ds.len() ==> !device_matches(#[trigger] ds[j], q)) ==> select_spec(ds, q) is Err,
{
    lemma_matching_indices_exact(ds, q);
    let m = matching_indices(ds, q);
    if m.len() == 1 {
        let i = m[0];
        assert(device_matches(ds[i], q));
        assert forall|j: int| 0 <= j < ds.len() && j != i implies !device_matches(#[trigger] ds[j], q) by {
            if device_matches(ds[j], q) {
                assert(m.contains(j));
            }
        }
    }
    if m.len() > 0 {
        assert(device_matches(ds[m[0]], q));
    }
}

proof fn lemma_digit_value(k: int)
    requires
        0 <= k < 10,
    ensures
        '0' <= digit_char(k) <= '9',
        (digit_char(k) as u32 - 48) == k,
{
    assert(((48 + k) as u8) as int == 48 + k);
}

proof fn lemma_dec_digits(n: nat)
    ensures
        dec_spec(n).len() > 0,
        is_digits(dec_spec(n)),
        digits_value(dec_spec(n)) == n,
    decreases n,
{
    if n < 10 {
        lemma_digit_value(n as int);
        let d = dec_spec(n);
        assert(d.drop_last() =~= Seq::<char>::empty());
        assert(digits_value(d.drop_last()) == 0);
        assert(d.last() == digit_char(n as int));
        assert(digits_value(d) == n);
    } else {
        lemma_dec_digits(n / 10);
        lemma_digit_value((n % 10) as int);
        let d = dec_spec(n);
        assert(d.drop_last() == dec_spec(n / 10));
        assert(d.last() == digit_char((n % 10) as int));
        assert(digits_value(d) == digits_value(dec_spec(n / 10)) * 10 + (n % 10));
        assert((n / 10) * 10 + n % 10 == n) by (nonlinear_arith);
        assert(digits_value(d) == n);
        assert forall|i: int| 0 <= i < d.len() implies '0' <= #[trigger] d[i] && d[i] <= '9' by {
            if i < d.len() - 1 {
                assert(d[i] == dec_spec(n / 10)[i]);
            }
        }
    }
}

proof fn lemma_zeros_value(z: Seq<char>)
    requires
        forall|i: int| 0 <= i < z.len() ==> z[i] == '0',
    ensures
        digits_value(z) == 0,
    decreases z.len(),
{
    if z.len() > 0 {
        lemma_zeros_value(z.drop_last());
    }
}

proof fn lemma_prefix_zeros_value(z: Seq<char>, s: Seq<char>)
    requires
        forall|i: int| 0 <= i < z.len() ==> z[i] == '0',
    ensures
        digits_value(z + s) == digits_value(s),
    decreases s.len(),
{
    if s.len() == 0 {
        assert(z + s == z);
        lemma_zeros_value(z);
    } else {
        lemma_prefix_zeros_value(z, s.drop_last());
        assert((z + s).drop_last() == z + s.drop_last());
        assert((z + s).last() == s.last());
    }
}

proof fn lemma_padded_number(n: nat, w: nat)
    ensures
        zero_pad(dec_spec(n), w).len() > 0,
        is_digits(zero_pad(dec_spec(n), w)),
        digits_value(zero_pad(dec_spec(n), w)) == n,
        !zero_pad(dec_spec(n), w).contains('-'),
{
    lemma_dec_digits(n);
    let d = dec_spec(n);
    let p = zero_pad(d, w);
    if d.len() < w {
        let z = Seq::new((w - d.len()) as nat, |i: int| '0');
        assert(p == z + d);
        lemma_prefix_zeros_value(z, d);
        assert forall|i: int| 0 <= i < p.len() implies '0' <= #[trigger] p[i] && p[i] <= '9' by {
            if i >= z.len() {
                assert(p[i] == d[i - z.len()]);
            }
        }
    }
    assert(is_digits(p));
    if p.contains('-') {
        let i = choose|i: int| 0 <= i < p.len() && p[i] == '-';
        assert('0' <= p[i]);
    }
}

proof fn lemma_u32_parse_padded(n: u32, w: nat)
    ensures
        u32_parse_spec(zero_pad(dec_spec(n as nat), w)) == Some(n),
{
    lemma_padded_number(n as nat, w);
    let p = zero_pad(dec_spec(n as nat), w);
    assert('0' <= p[0] && p[0] <= '9');
    assert(p[0] != '+');
}

proof fn lemma_split_no_sep(t: Seq<char>, sep: char, i: int)
    requires
        0 <= i <= t.len(),
        forall|k: int| i <= k < t.len() ==> t[k] != sep,
    ensures
        split_from(t, sep, i) == seq![t.subrange(i, t.len() as int)],
    decreases t.len() - i,
{
    lemma_scan_char(t, sep, i);
    assert(scan_char(t, sep, i) == t.len());
}

proof fn lemma_split_at_sep(t: Seq<char>, sep: char, i: int, j: int)
    requires
        0 <= i <= j < t.len(),
        t[j] == sep,
        forall|k: int| i <= k < j ==> t[k] != sep,
    ensures
        split_from(t, sep, i) == seq![t.subrange(i, j)] + split_from(t, sep, j + 1),
{
    lemma_scan_char(t, sep, i);
    let s = scan_char(t, sep, i);
    if s < j {
        assert(t[s] == sep);
    }
    if s > j {
        assert(t[j] != sep);
    }
}

/// The date of an energy report reads back as the `--date` it came from:
/// for every date that `--date` accepts, parsing its `YYYY-MM-DD` text gives
/// the same year, month and day.
pub proof fn lemma_date_text_round_trip(y: u32, m: u32, d: u32)
    requires
        2000 <= y <= 2099,
        1 <= m <= 12,
        1 <= d <= 31,
    ensures
        date_spec(date_text_spec(y, m, d)) == Some((y, m, d)),
{
    let a = zero_pad(dec_spec(y as nat), 4);
    let b = zero_pad(dec_spec(m as nat), 2);
    let c = zero_pad(dec_spec(d as nat), 2);
    lemma_padded_number(y as nat, 4);
    lemma_padded_number(m as nat, 2);
    lemma_padded_number(d as nat, 2);
    lemma_u32_parse_padded(y, 4);
    lemma_u32_parse_padded(m, 2);
    lemma_u32_parse_padded(d, 2);
    reveal_strlit("-");
    let t = date_text_spec(y, m, d);
    assert(t =~= a + seq!['-'] + b + seq!['-'] + c);
    let j1 = a.len() as int;
    let j2 = (a.len() + 1 + b.len()) as int;
    assert forall|k: int| 0 <= k < j1 implies t[k] != '-' by {
        assert(t[k] == a[k]);
        assert(!a.contains('-'));
        if a[k] == '-' { assert(a.contains('-')); }
    }
    assert forall|k: int| j1 + 1 <= k < j2 implies t[k] != '-' by {
        assert(t[k] == b[k - j1 - 1]);
        if b[k - j1 - 1] == '-' { assert(b.contains('-')); }
    }
    assert forall|k: int| j2 + 1 <= k < t.len() implies t[k] != '-' by {
        assert(t[k] == c[k - j2 - 1]);
        if c[k - j2 - 1] == '-' { assert(c.contains('-')); }
    }
    lemma_split_at_sep(t, '-', 0, j1);
    lemma_split_at_sep(t, '-', j1 + 1, j2);
    lemma_split_no_sep(t, '-', j2 + 1);
    assert(t.subrange(0, j1) =~= a);
    assert(t.subrange(j1 + 1, j2) =~= b);
    assert(t.subrange(j2 + 1, t.len() as int) =~= c);
    let parts = split_from(t, '-', 0);
    assert(parts =~= seq![a, b, c]);
}

} // verus!

verus! {

/// How a read page moves the device scan, for a kind being read
/// (`panel < panels.len()`, page within the limit) and a page of new devices
/// (not empty, not the same as the page before):
/// - its devices are added after those found so far, each with the kind's
///   name, the kind's control page id and the page's token;
/// - a full page of 8 devices below the page limit keeps the same kind and
///   moves to its next page;
/// - a page of fewer than 8 devices, or the page at the limit, ends the kind:
///   the scan moves to page 1 of the next kind.
/// An empty page, or one equal to the page before, ends the kind and adds nothing.
pub proof fn lemma_scan_step_paging(v: ScanView, ds: Seq<DeviceView>, t: Seq<char>)
    requires
        0 <= v.panel < v.panels.len(),
        1 <= v.page <= DEVICE_PAGE_LIMIT,
    ensures
        ds.len() > 0 && ds != v.prev ==> {
            let w = scan_step(v, ds, t);
            &&& w.panels == v.panels
            &&& w.found.len() == v.found.len() + ds.len()
            &&& w.found.subrange(0, v.found.len() as int) == v.found
            &&& forall|i: int| 0 <= i < ds.len() ==> #[trigger] w.found[v.found.len() + i] == DeviceView {
                kind: v.panels[v.panel].0,
                link: page_id_spec(v.panels[v.panel].1),
                token: t,
                ..ds[i]
            }
            &&& (ds.len() == 8 && v.page < 10) ==> (w.panel == v.panel && w.page == v.page + 1 && w.prev == ds)
            &&& (ds.len() < 8 || v.page == 10) ==> (w.panel == v.panel + 1 && w.page == 1 && w.prev.len() == 0)
        },
        (ds.len() == 0 || ds == v.prev) ==> {
            let w = scan_step(v, ds, t);
            &&& w.panels == v.panels
            &&& w.found == v.found
            &&& w.panel == v.panel + 1
            &&& w.page == 1
        },
{
    if ds.len() > 0 && ds != v.prev {
        let w = scan_step(v, ds, t);
        let (kind, link) = v.panels[v.panel];
        let added = fill_devices(ds, kind, page_id_spec(link), t);
        assert(w.found == v.found + added);
        assert(w.found.subrange(0, v.found.len() as int) =~= v.found);
        assert forall|i: int| 0 <= i < ds.len() implies #[trigger] w.found[v.found.len() + i] == DeviceView {
            kind: v.panels[v.panel].0,
            link: page_id_spec(v.panels[v.panel].1),
            token: t,
            ..ds[i]
        } by {
            assert(w.found[v.found.len() + i] == added[i]);
        }
    }
}

} // verus!
