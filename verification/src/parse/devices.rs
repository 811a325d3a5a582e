//! The device-control pages.
//!
//! Page contract (firmware frozen):
//! - the top page's `#fmenu` holds the `/page/devices` link to the device-control list
//! - each `.panel` of the list has a `.kiki_title` (kind name) and an "individual"
//!   link (such as `32i1?page=1`)
//! - on a device page each `.panel[nodeid]` is one device with attributes `nodeid` /
//!   `eoj` / `type` / `state`; a class ending in `_title` holds the name and a class
//!   ending in `_state` (with `on` on itself or a child) the state
//! - the control token is in `#main[token]`, the text of `.setting_value`, or `.control[token]`

use vstd::prelude::*;
use vstd::string::StrSliceExecFns;
use crate::html::{HtmlDoc, parse_html, select_spec, select_in_spec, html_text, html_attr,
    html_classes, html_children, html_is_element, html_prev_siblings, html_descendants};
use crate::text::{chars_of, string_of, trim, trim_spec, find_char, first_index, lemma_scan_char, chars_eq_str, ends_with, concat};

verus! {

/// `Some(view)` of an optional string.
pub open spec fn opt_view(o: Option<String>) -> Option<Seq<char>> {
    match o {
        Some(s) => Some(s@),
        None => None,
    }
}

/// One device of the device-control list.
#[derive(Debug, PartialEq)]
pub struct Device {
    /// `<nodeId>:<eoj>`; unique, used to name the device on the command line
    pub id: String,
    pub name: String,
    /// Panel kind (lighting, air purifier, ...), as the controller shows it
    pub kind: String,
    /// "on" | "off"
    pub state: String,
    pub node_id: String,
    pub eoj: String,
    pub dev_type: String,
    /// Page id of the control endpoint (such as "32i1")
    pub link: String,
    /// Control token (never printed)
    pub token: String,
    /// The panel's `state` attribute (such as "0x30"); toggle controls send it
    pub state_attr: Option<String>,
}

/// The abstract value of a [`Device`]: its fields as character sequences.
pub ghost struct DeviceView {
    pub id: Seq<char>,
    pub name: Seq<char>,
    pub kind: Seq<char>,
    pub state: Seq<char>,
    pub node_id: Seq<char>,
    pub eoj: Seq<char>,
    pub dev_type: Seq<char>,
    pub link: Seq<char>,
    pub token: Seq<char>,
    pub state_attr: Option<Seq<char>>,
}

impl View for Device {
    type V = DeviceView;

    open spec fn view(&self) -> DeviceView {
        DeviceView {
            id: self.id@,
            name: self.name@,
            kind: self.kind@,
            state: self.state@,
            node_id: self.node_id@,
            eoj: self.eoj@,
            dev_type: self.dev_type@,
            link: self.link@,
            token: self.token@,
            state_attr: opt_view(self.state_attr),
        }
    }
}

fn copy_opt(o: &Option<String>) -> (r: Option<String>)
    ensures
        opt_view(r) == opt_view(*o),
{
    match o {
        Some(s) => Some(s.clone()),
        None => None,
    }
}

impl Device {
    /// A copy of the device.
    pub fn copy(&self) -> (r: Device)
        ensures
            r@ == self@,
    {
        Device {
            id: self.id.clone(),
            name: self.name.clone(),
            kind: self.kind.clone(),
            state: self.state.clone(),
            node_id: self.node_id.clone(),
            eoj: self.eoj.clone(),
            dev_type: self.dev_type.clone(),
            link: self.link.clone(),
            token: self.token.clone(),
            state_attr: copy_opt(&self.state_attr),
        }
    }
}

/// One kind panel (one row of the device-control list).
#[derive(Debug, PartialEq)]
pub struct Panel {
    pub kind: String,
    /// href of the "individual" link (such as "32i1?page=1")
    pub link: String,
}

/// Trimmed text of element `node` (`element_text` of the page contract).
pub open spec fn element_text(h: Seq<char>, node: usize) -> Seq<char> {
    trim_spec(html_text(h, node))
}

fn element_text_of(doc: &HtmlDoc, node: usize) -> (r: Vec<char>)
    ensures
        r@ == element_text(doc@, node),
{
    let t = doc.text(node);
    let tv = chars_of(t.as_str());
    trim(tv.as_slice())
}

/// The selector of the device-control link on the top page.
pub open spec fn menu_selector() -> Seq<char> {
    "#fmenu a[href^=\"/page/devices\"]"@
}

/// The device-control link of the top page: the `href` of the first match.
pub open spec fn menu_link_spec(h: Seq<char>) -> Option<Seq<char>> {
    let m = select_spec(h, menu_selector());
    if m.len() == 0 { None } else { html_attr(h, m[0], "href"@) }
}

/// Finds the link to the device-control list on the top page.
pub fn parse_devices_menu_link(html: &str) -> (r: Option<String>)
    ensures
        opt_view(r) == menu_link_spec(html@),
{
    let doc = parse_html(html);
    let m = doc.select("#fmenu a[href^=\"/page/devices\"]");
    if m.len() == 0 {
        None
    } else {
        doc.attr(m[0], "href")
    }
}

/// The first element among `nodes`.
pub open spec fn first_element(h: Seq<char>, nodes: Seq<usize>) -> Option<usize>
    decreases nodes.len(),
{
    if nodes.len() == 0 {
        None
    } else if html_is_element(h, nodes[0]) {
        Some(nodes[0])
    } else {
        first_element(h, nodes.drop_first())
    }
}

fn first_element_exec(doc: &HtmlDoc, nodes: &Vec<usize>) -> (r: Option<usize>)
    ensures
        r == first_element(doc@, nodes@),
{
    let mut i: usize = 0;
    assert(nodes@.skip(0) == nodes@);
    while i < nodes.len()
        invariant
            i <= nodes@.len(),
            first_element(doc@, nodes@.skip(i as int)) == first_element(doc@, nodes@),
        decreases nodes@.len() - i,
    {
        assert(nodes@.skip(i as int).drop_first() == nodes@.skip(i + 1));
        if doc.is_element(nodes[i]) {
            return Some(nodes[i]);
        }
        i = i + 1;
    }
    None
}

/// The previous sibling element of `node`.
pub open spec fn prev_element(h: Seq<char>, node: usize) -> Option<usize> {
    first_element(h, html_prev_siblings(h, node))
}

/// The label that marks the individual-control link.
pub open spec fn individual_label() -> Seq<char> {
    "個別"@
}

/// The href of anchor `a` when the element just before it reads "個別".
pub open spec fn individual_href(h: Seq<char>, a: usize) -> Option<Seq<char>> {
    match prev_element(h, a) {
        Some(p) => if element_text(h, p) == individual_label() { html_attr(h, a, "href"@) } else { None },
        None => None,
    }
}

/// The first individual-control href among anchors `anchors`.
pub open spec fn first_individual_href(h: Seq<char>, anchors: Seq<usize>) -> Option<Seq<char>>
    decreases anchors.len(),
{
    if anchors.len() == 0 {
        None
    } else {
        match individual_href(h, anchors[0]) {
            Some(l) => Some(l),
            None => first_individual_href(h, anchors.drop_first()),
        }
    }
}

fn individual_href_exec(doc: &HtmlDoc, a: usize) -> (r: Option<String>)
    ensures
        opt_view(r) == individual_href(doc@, a),
{
    let sibs = doc.prev_siblings(a);
    match first_element_exec(doc, &sibs) {
        Some(p) => {
            let label = element_text_of(doc, p);
            if chars_eq_str(label.as_slice(), "個別") {
                doc.attr(a, "href")
            } else {
                None
            }
        },
        None => None,
    }
}

/// The kind panels with an individual-control link, in page order: for each
/// `div.panel`, the trimmed text of its first `.kiki_title` (panels without one
/// are skipped) and the first individual-control href; kept when both exist and
/// the kind is not empty.
pub open spec fn panels_spec(h: Seq<char>) -> Seq<(Seq<char>, Seq<char>)> {
    panels_of(h, select_spec(h, "div.panel"@))
}

/// The panel entry of `div.panel` element `p`, if it has one.
pub open spec fn panel_entry(h: Seq<char>, p: usize) -> Option<(Seq<char>, Seq<char>)> {
    let titles = select_in_spec(h, p, ".kiki_title"@);
    if titles.len() == 0 {
        None
    } else {
        let kind = element_text(h, titles[0]);
        match first_individual_href(h, select_in_spec(h, p, "a"@)) {
            Some(link) => if kind.len() > 0 { Some((kind, link)) } else { None },
            None => None,
        }
    }
}

/// The panel entries of the panels `ps`, in order.
pub open spec fn panels_of(h: Seq<char>, ps: Seq<usize>) -> Seq<(Seq<char>, Seq<char>)>
    decreases ps.len(),
{
    if ps.len() == 0 {
        Seq::empty()
    } else {
        let rest = panels_of(h, ps.drop_last());
        match panel_entry(h, ps.last()) {
            Some(e) => rest.push(e),
            None => rest,
        }
    }
}

fn panel_entry_exec(doc: &HtmlDoc, p: usize) -> (r: Option<Panel>)
    ensures
        match panel_entry(doc@, p) {
            Some(e) => r matches Some(q) && q.kind@ == e.0 && q.link@ == e.1,
            None => r is None,
        },
{
    let titles = doc.select_in(p, ".kiki_title");
    if titles.len() == 0 {
        return None;
    }
    let kind = element_text_of(doc, titles[0]);
    let anchors = doc.select_in(p, "a");
    let mut i: usize = 0;
    assert(anchors@.skip(0) == anchors@);
    while i < anchors.len()
        invariant
            i <= anchors@.len(),
            titles@ == select_in_spec(doc@, p, ".kiki_title"@),
            titles@.len() > 0,
            kind@ == element_text(doc@, titles@[0]),
            anchors@ == select_in_spec(doc@, p, "a"@),
            first_individual_href(doc@, anchors@.skip(i as int)) == first_individual_href(doc@, anchors@),
        decreases anchors@.len() - i,
    {
        assert(anchors@.skip(i as int).drop_first() == anchors@.skip(i + 1));
        match individual_href_exec(doc, anchors[i]) {
            Some(link) => {
                if kind.len() > 0 {
                    return Some(Panel { kind: string_of(kind.as_slice()), link });
                } else {
                    return None;
                }
            },
            None => {},
        }
        i = i + 1;
    }
    None
}

/// The model of a list of panels.
pub open spec fn panels_view(v: Seq<Panel>) -> Seq<(Seq<char>, Seq<char>)> {
    v.map_values(|p: Panel| (p.kind@, p.link@))
}

/// Extracts the kind panels (those with an individual-control link) of the
/// device-control list.
pub fn parse_panels(html: &str) -> (r: Vec<Panel>)
    ensures
        panels_view(r@) == panels_spec(html@),
{
    let doc = parse_html(html);
    let ps = doc.select("div.panel");
    let mut out: Vec<Panel> = Vec::new();
    let mut i: usize = 0;
    while i < ps.len()
        invariant
            i <= ps@.len(),
            panels_view(out@) == panels_of(doc@, ps@.take(i as int)),
        decreases ps@.len() - i,
    {
        assert(ps@.take(i + 1).drop_last() == ps@.take(i as int));
        match panel_entry_exec(&doc, ps[i]) {
            Some(p) => {
                out.push(p);
                assert(panels_view(out@) =~= panels_view(out@.drop_last()).push((out@.last().kind@, out@.last().link@)));
            },
            None => {},
        }
        i = i + 1;
    }
    assert(ps@.take(ps@.len() as int) == ps@);
    out
}


/// The value of attribute `name` of the first element matching `sel`, when it
/// exists and is not empty.
pub open spec fn first_attr_nonempty(h: Seq<char>, sel: Seq<char>, name: Seq<char>) -> Option<Seq<char>> {
    let m = select_spec(h, sel);
    if m.len() == 0 {
        None
    } else {
        match html_attr(h, m[0], name) {
            Some(v) => if v.len() > 0 { Some(v) } else { None },
            None => None,
        }
    }
}

/// The trimmed text of the first element matching `sel`, when there is one and
/// it is not empty.
pub open spec fn first_text_nonempty(h: Seq<char>, sel: Seq<char>) -> Option<Seq<char>> {
    let m = select_spec(h, sel);
    if m.len() == 0 {
        None
    } else {
        let t = element_text(h, m[0]);
        if t.len() > 0 { Some(t) } else { None }
    }
}

/// The control token of a device page: `#main[token]`, else the text of
/// `.setting_value`, else `.control[token]`; the first that is present and not empty.
pub open spec fn token_spec(h: Seq<char>) -> Option<Seq<char>> {
    match first_attr_nonempty(h, "#main"@, "token"@) {
        Some(t) => Some(t),
        None => match first_text_nonempty(h, ".setting_value"@) {
            Some(t) => Some(t),
            None => first_attr_nonempty(h, ".control[token]"@, "token"@),
        },
    }
}

fn first_attr_nonempty_exec(doc: &HtmlDoc, sel: &str, name: &str) -> (r: Option<String>)
    ensures
        opt_view(r) == first_attr_nonempty(doc@, sel@, name@),
{
    let m = doc.select(sel);
    if m.len() == 0 {
        return None;
    }
    match doc.attr(m[0], name) {
        Some(v) => {
            let vv = chars_of(v.as_str());
            if vv.len() > 0 { Some(v) } else { None }
        },
        None => None,
    }
}

/// Finds the control token of a device page (several places are tried, for
/// firmware differences).
pub fn parse_token(html: &str) -> (r: Option<String>)
    ensures
        opt_view(r) == token_spec(html@),
{
    let doc = parse_html(html);
    match first_attr_nonempty_exec(&doc, "#main", "token") {
        Some(t) => return Some(t),
        None => {},
    }
    let m = doc.select(".setting_value");
    if m.len() > 0 {
        let t = element_text_of(&doc, m[0]);
        if t.len() > 0 {
            return Some(string_of(t.as_slice()));
        }
    }
    first_attr_nonempty_exec(&doc, ".control[token]", "token")
}

/// Whether `s` ends with `p`.
pub open spec fn ends_with_spec(s: Seq<char>, p: Seq<char>) -> bool {
    p.len() <= s.len() && s.skip(s.len() - p.len()) == p
}

/// Whether element `n` has a class ending in `suffix`.
pub open spec fn has_class_suffix(h: Seq<char>, n: usize, suffix: Seq<char>) -> bool {
    exists|i: int| 0 <= i < html_classes(h, n).len() && ends_with_spec(#[trigger] html_classes(h, n)[i], suffix)
}

/// Whether element `n` has the class `c`.
pub open spec fn has_class(h: Seq<char>, n: usize, c: Seq<char>) -> bool {
    exists|i: int| 0 <= i < html_classes(h, n).len() && #[trigger] html_classes(h, n)[i] == c
}

fn has_class_suffix_exec(doc: &HtmlDoc, n: usize, suffix: &str) -> (r: bool)
    ensures
        r == has_class_suffix(doc@, n, suffix@),
{
    let cs = doc.classes(n);
    let sv = chars_of(suffix);
    let mut i: usize = 0;
    while i < cs.len()
        invariant
            i <= cs@.len(),
            sv@ == suffix@,
            cs@.map_values(|s: String| s@) == html_classes(doc@, n),
            forall|k: int| 0 <= k < i ==> !ends_with_spec(#[trigger] html_classes(doc@, n)[k], suffix@),
        decreases cs@.len() - i,
    {
        let cv = chars_of(cs[i].as_str());
        assert(cv@ == html_classes(doc@, n)[i as int]);
        if ends_with(cv.as_slice(), sv.as_slice()) {
            return true;
        }
        i = i + 1;
    }
    false
}

fn has_class_exec(doc: &HtmlDoc, n: usize, c: &str) -> (r: bool)
    ensures
        r == has_class(doc@, n, c@),
{
    let cs = doc.classes(n);
    let mut i: usize = 0;
    while i < cs.len()
        invariant
            i <= cs@.len(),
            cs@.map_values(|s: String| s@) == html_classes(doc@, n),
            forall|k: int| 0 <= k < i ==> #[trigger] html_classes(doc@, n)[k] != c@,
        decreases cs@.len() - i,
    {
        let cv = chars_of(cs[i].as_str());
        assert(cv@ == html_classes(doc@, n)[i as int]);
        if chars_eq_str(cv.as_slice(), c) {
            return true;
        }
        i = i + 1;
    }
    false
}

/// The first element among `nodes` with a class ending in `suffix`.
pub open spec fn first_with_class_suffix(h: Seq<char>, nodes: Seq<usize>, suffix: Seq<char>) -> Option<usize>
    decreases nodes.len(),
{
    if nodes.len() == 0 {
        None
    } else if html_is_element(h, nodes[0]) && has_class_suffix(h, nodes[0], suffix) {
        Some(nodes[0])
    } else {
        first_with_class_suffix(h, nodes.drop_first(), suffix)
    }
}

/// The first element of the subtree of `root` (itself included, in document
/// order) with a class ending in `suffix`.
pub open spec fn find_class_suffix(h: Seq<char>, root: usize, suffix: Seq<char>) -> Option<usize> {
    first_with_class_suffix(h, html_descendants(h, root), suffix)
}

fn find_class_suffix_exec(doc: &HtmlDoc, root: usize, suffix: &str) -> (r: Option<usize>)
    ensures
        r == find_class_suffix(doc@, root, suffix@),
{
    let ds = doc.descendants(root);
    let mut i: usize = 0;
    assert(ds@.skip(0) == ds@);
    while i < ds.len()
        invariant
            i <= ds@.len(),
            ds@ == html_descendants(doc@, root),
            first_with_class_suffix(doc@, ds@.skip(i as int), suffix@) == find_class_suffix(doc@, root, suffix@),
        decreases ds@.len() - i,
    {
        assert(ds@.skip(i as int).drop_first() == ds@.skip(i + 1));
        if doc.is_element(ds[i]) && has_class_suffix_exec(doc, ds[i], suffix) {
            return Some(ds[i]);
        }
        i = i + 1;
    }
    None
}

/// Whether state element `el` has the class `on`, itself or on one of its child elements.
pub open spec fn is_on_spec(h: Seq<char>, el: usize) -> bool {
    has_class(h, el, "on"@) || exists|i: int| 0 <= i < html_children(h, el).len()
        && html_is_element(h, #[trigger] html_children(h, el)[i]) && has_class(h, html_children(h, el)[i], "on"@)
}

fn has_on_class(doc: &HtmlDoc, el: usize) -> (r: bool)
    ensures
        r == is_on_spec(doc@, el),
{
    if has_class_exec(doc, el, "on") {
        return true;
    }
    let cs = doc.children(el);
    let mut i: usize = 0;
    while i < cs.len()
        invariant
            i <= cs@.len(),
            cs@ == html_children(doc@, el),
            !has_class(doc@, el, "on"@),
            forall|k: int| 0 <= k < i ==> !(html_is_element(doc@, #[trigger] cs@[k]) && has_class(doc@, cs@[k], "on"@)),
        decreases cs@.len() - i,
    {
        if doc.is_element(cs[i]) && has_class_exec(doc, cs[i], "on") {
            return true;
        }
        i = i + 1;
    }
    false
}

/// The device of device panel `p` (kind, link and token are left empty for the
/// caller to fill in).
pub open spec fn device_of(h: Seq<char>, p: usize) -> DeviceView {
    let node_id = attr_or_empty(h, p, "nodeid"@);
    let eoj = attr_or_empty(h, p, "eoj"@);
    let name = match find_class_suffix(h, p, "_title"@) {
        Some(t) => element_text(h, t),
        None => Seq::empty(),
    };
    let on = match find_class_suffix(h, p, "_state"@) {
        Some(s) => is_on_spec(h, s),
        None => false,
    };
    DeviceView {
        id: node_id + ":"@ + eoj,
        name,
        kind: Seq::empty(),
        state: if on { "on"@ } else { "off"@ },
        node_id,
        eoj,
        dev_type: attr_or_empty(h, p, "type"@),
        link: Seq::empty(),
        token: Seq::empty(),
        state_attr: html_attr(h, p, "state"@),
    }
}

/// The value of attribute `name` of `n`, or the empty string.
pub open spec fn attr_or_empty(h: Seq<char>, n: usize, name: Seq<char>) -> Seq<char> {
    match html_attr(h, n, name) {
        Some(v) => v,
        None => Seq::empty(),
    }
}

fn attr_or_empty_exec(doc: &HtmlDoc, n: usize, name: &str) -> (r: String)
    ensures
        r@ == attr_or_empty(doc@, n, name@),
{
    match doc.attr(n, name) {
        Some(v) => v,
        None => String::new(),
    }
}

fn device_of_exec(doc: &HtmlDoc, p: usize) -> (r: Device)
    ensures
        r@ == device_of(doc@, p),
{
    let node_id = attr_or_empty_exec(doc, p, "nodeid");
    let eoj = attr_or_empty_exec(doc, p, "eoj");
    let dev_type = attr_or_empty_exec(doc, p, "type");
    let state_attr = doc.attr(p, "state");
    let name = match find_class_suffix_exec(doc, p, "_title") {
        Some(t) => string_of(element_text_of(doc, t).as_slice()),
        None => String::new(),
    };
    let on = match find_class_suffix_exec(doc, p, "_state") {
        Some(st) => has_on_class(doc, st),
        None => false,
    };
    let mut id = chars_of(node_id.as_str());
    id.push(':');
    let eojv = chars_of(eoj.as_str());
    let id = concat(id.as_slice(), eojv.as_slice());
    proof {
        reveal_strlit(":");
        assert(":"@ =~= seq![':']);
        assert(id@ =~= node_id@ + ":"@ + eoj@);
    }
    Device {
        id: string_of(id.as_slice()),
        name,
        kind: String::new(),
        state: if on { String::from_str("on") } else { String::from_str("off") },
        node_id,
        eoj,
        dev_type,
        link: String::new(),
        token: String::new(),
        state_attr,
    }
}

/// The devices of the device panels `ps`, in order.
pub open spec fn devices_of(h: Seq<char>, ps: Seq<usize>) -> Seq<DeviceView> {
    ps.map_values(|p: usize| device_of(h, p))
}

/// The devices of one device page: one per `div.panel[nodeid]`, in page order.
pub open spec fn device_panels_spec(h: Seq<char>) -> Seq<DeviceView> {
    devices_of(h, select_spec(h, "div.panel[nodeid]"@))
}

/// The model of a list of devices.
pub open spec fn devices_view(v: Seq<Device>) -> Seq<DeviceView> {
    v.map_values(|d: Device| d@)
}

/// Extracts the devices of one device page. Kind, link and token are left
/// empty for the caller to fill in.
pub fn parse_device_panels(html: &str) -> (r: Vec<Device>)
    ensures
        devices_view(r@) == device_panels_spec(html@),
{
    let doc = parse_html(html);
    let ps = doc.select("div.panel[nodeid]");
    let mut out: Vec<Device> = Vec::new();
    let mut i: usize = 0;
    while i < ps.len()
        invariant
            i <= ps@.len(),
            out@.len() == i,
            devices_view(out@) == devices_of(doc@, ps@.take(i as int)),
        decreases ps@.len() - i,
    {
        let d = device_of_exec(&doc, ps[i]);
        let ghost before = out@;
        out.push(d);
        proof {
            assert(ps@.take(i + 1) == ps@.take(i as int).push(ps@[i as int]));
            assert forall|k: int| 0 <= k < out@.len() implies devices_view(out@)[k] == devices_of(doc@, ps@.take(i + 1))[k] by {
                if k < i {
                    assert(out@[k] == before[k]);
                    assert(devices_view(before)[k] == devices_of(doc@, ps@.take(i as int))[k]);
                }
            }
            assert(devices_view(out@) =~= devices_of(doc@, ps@.take(i + 1)));
        }
        i = i + 1;
    }
    assert(ps@.take(ps@.len() as int) == ps@);
    out
}

/// The page id of a panel link: the part before the first `?`
/// ("32i1?page=1" gives "32i1").
pub open spec fn page_id_spec(link: Seq<char>) -> Seq<char> {
    match first_index(link, '?') {
        Some(i) => link.take(i),
        None => link,
    }
}

/// The page id of a panel link ("32i1?page=1" gives "32i1").
pub fn panel_page_id(link: &str) -> (r: &str)
    ensures
        r@ == page_id_spec(link@),
        !r@.contains('?'),
{
    let v = chars_of(link);
    proof { lemma_scan_char(link@, '?', 0); }
    match find_char(v.as_slice(), '?') {
        Some(i) => {
            let r = link.substring_char(0, i);
            assert(r@ =~= link@.take(i as int));
            r
        },
        None => {
            let r = link.substring_char(0, v.len());
            assert(r@ == link@);
            r
        },
    }
}

} // verus!
