//! Generic reading for `ais fetch <page>`: the normalised text of every element
//! of a page that has an `id` attribute (raw HTML is never passed on).

use vstd::prelude::*;
use crate::html::{HtmlDoc, parse_html, select_spec, html_attr, html_children, html_text_node};
use crate::text::{chars_of, string_of, trim, trim_spec, chars_eq, append_str, contains_spec, lemma_trim_keeps_inner};

verus! {

/// The order of `String`'s `Ord` on texts: lexicographic by code point
/// (UTF-8 keeps the code-point order, so comparing the bytes agrees).
pub open spec fn key_lt(a: Seq<char>, b: Seq<char>) -> bool
    decreases a.len(),
{
    if a.len() == 0 {
        b.len() > 0
    } else if b.len() == 0 {
        false
    } else if a[0] != b[0] {
        (a[0] as u32) < (b[0] as u32)
    } else {
        key_lt(a.drop_first(), b.drop_first())
    }
}

/// `key_lt` is a strict total order.
pub proof fn lemma_key_lt_order(a: Seq<char>, b: Seq<char>, c: Seq<char>)
    ensures
        !key_lt(a, a),
        key_lt(a, b) ==> !key_lt(b, a),
        a != b ==> key_lt(a, b) || key_lt(b, a),
        key_lt(a, b) && key_lt(b, c) ==> key_lt(a, c),
    decreases a.len(),
{
    if a.len() == 0 {
        if b.len() == 0 {
            assert(a =~= b);
        }
    } else {
        lemma_key_lt_order(a.drop_first(), a.drop_first(), a.drop_first());
        if b.len() > 0 {
            vstd::utf8::char_u32_cast(a[0], a[0] as u32);
            vstd::utf8::char_u32_cast(b[0], b[0] as u32);
            lemma_key_lt_order(a.drop_first(), b.drop_first(), b.drop_first());
            if c.len() > 0 {
                lemma_key_lt_order(a.drop_first(), b.drop_first(), c.drop_first());
            }
            if a[0] == b[0] && a.drop_first() == b.drop_first() {
                assert(a =~= seq![a[0]] + a.drop_first());
                assert(b =~= seq![b[0]] + b.drop_first());
            }
        }
    }
}

/// A position of key `k` among the entries `e`.
pub open spec fn key_index(e: Seq<(String, String)>, k: Seq<char>) -> int {
    choose|i: int| 0 <= i < e.len() && e[i].0@ == k
}

/// The map held by a list of entries with distinct keys.
pub open spec fn entries_view(e: Seq<(String, String)>) -> Map<Seq<char>, Seq<char>> {
    Map::new(
        |k: Seq<char>| exists|i: int| 0 <= i < e.len() && e[i].0@ == k,
        |k: Seq<char>| e[key_index(e, k)].1@,
    )
}

/// Whether the keys of `e` rise strictly.
pub open spec fn keys_sorted(e: Seq<(String, String)>) -> bool {
    forall|i: int, j: int| 0 <= i < j < e.len() ==> key_lt(#[trigger] e[i].0@, #[trigger] e[j].0@)
}

proof fn lemma_entries_view_at(e: Seq<(String, String)>, i: int)
    requires
        keys_sorted(e),
        0 <= i < e.len(),
    ensures
        entries_view(e).contains_key(e[i].0@),
        entries_view(e)[e[i].0@] == e[i].1@,
{
    let k = e[i].0@;
    assert(entries_view(e).contains_key(k));
    let j = key_index(e, k);
    assert(j == i) by {
        lemma_key_lt_order(k, k, k);
        if j < i { assert(key_lt(e[j].0@, e[i].0@)); }
        if i < j { assert(key_lt(e[i].0@, e[j].0@)); }
    }
    assert(entries_view(e)[k] == e[j].1@);
}

/// A map from `id` attribute to text, its entries sorted by key (the order of
/// a `BTreeMap<String, String>`).
#[derive(Debug)]
pub struct IdValues {
    entries: Vec<(String, String)>,
}

impl IdValues {
    #[verifier::type_invariant]
    spec fn sorted(self) -> bool {
        keys_sorted(self.entries@)
    }
}

impl View for IdValues {
    type V = Map<Seq<char>, Seq<char>>;

    closed spec fn view(&self) -> Map<Seq<char>, Seq<char>> {
        entries_view(self.entries@)
    }
}

/// Whether `a` comes before `b` (see [`key_lt`]).
fn key_less(a: &[char], b: &[char]) -> (r: bool)
    ensures
        r == key_lt(a@, b@),
{
    let mut i: usize = 0;
    assert(a@.skip(0) =~= a@ && b@.skip(0) =~= b@);
    while i < a.len() && i < b.len()
        invariant
            i <= a@.len(),
            i <= b@.len(),
            key_lt(a@, b@) == key_lt(a@.skip(i as int), b@.skip(i as int)),
        decreases a@.len() - i,
    {
        let x = a[i];
        let y = b[i];
        assert(a@.skip(i as int)[0] == x && b@.skip(i as int)[0] == y);
        if x != y {
            return (x as u32) < (y as u32);
        }
        assert(a@.skip(i as int).drop_first() =~= a@.skip(i + 1));
        assert(b@.skip(i as int).drop_first() =~= b@.skip(i + 1));
        i = i + 1;
    }
    i < b.len()
}

impl IdValues {
    /// No entries.
    pub fn new() -> (r: IdValues)
        ensures
            r@ == Map::<Seq<char>, Seq<char>>::empty(),
    {
        let r = IdValues { entries: Vec::new() };
        assert(r@ =~= Map::<Seq<char>, Seq<char>>::empty());
        r
    }

    fn find(&self, key: &[char]) -> (r: Option<usize>)
        ensures
            match r {
                Some(i) => i < self.entries@.len() && self.entries@[i as int].0@ == key@,
                None => forall|i: int| 0 <= i < self.entries@.len() ==> self.entries@[i].0@ != key@,
            },
    {
        let mut i: usize = 0;
        while i < self.entries.len()
            invariant
                i <= self.entries@.len(),
                forall|k: int| 0 <= k < i ==> self.entries@[k].0@ != key@,
            decreases self.entries@.len() - i,
        {
            let kv = chars_of(self.entries[i].0.as_str());
            if chars_eq(kv.as_slice(), key) {
                return Some(i);
            }
            i = i + 1;
        }
        None
    }

    /// The text of `key`, if present.
    pub fn get(&self, key: &str) -> (r: Option<&String>)
        ensures
            match r {
                Some(v) => self@.contains_key(key@) && v@ == self@[key@],
                None => !self@.contains_key(key@),
            },
    {
        proof { use_type_invariant(self); }
        let kv = chars_of(key);
        match self.find(kv.as_slice()) {
            Some(i) => {
                proof { lemma_entries_view_at(self.entries@, i as int); }
                Some(&self.entries[i].1)
            },
            None => None,
        }
    }

    /// Whether `key` is present.
    pub fn contains_key(&self, key: &str) -> (r: bool)
        ensures
            r == self@.contains_key(key@),
    {
        let kv = chars_of(key);
        self.find(kv.as_slice()).is_some()
    }

    /// The number of entries.
    pub fn len(&self) -> (r: usize)
        ensures
            r == self@.len(),
    {
        proof {
            use_type_invariant(self);
            let keys = self.entries@.map_values(|e: (String, String)| e.0@);
            assert forall|k: Seq<char>| self@.dom().contains(k) <==> keys.to_set().contains(k) by {
                if self@.dom().contains(k) {
                    let i = choose|i: int| 0 <= i < self.entries@.len() && self.entries@[i].0@ == k;
                    assert(keys[i] == k);
                }
                if keys.contains(k) {
                    let i = choose|i: int| 0 <= i < keys.len() && keys[i] == k;
                    assert(self.entries@[i].0@ == k);
                }
            }
            assert(self@.dom() =~= keys.to_set());
            assert forall|i: int, j: int| 0 <= i < keys.len() && 0 <= j < keys.len() && i != j implies keys[i] != keys[j] by {
                let a = self.entries@[i].0@;
                lemma_key_lt_order(a, a, a);
                if i < j { assert(key_lt(self.entries@[i].0@, self.entries@[j].0@)); }
                if j < i { assert(key_lt(self.entries@[j].0@, self.entries@[i].0@)); }
            }
            assert(keys.no_duplicates());
            keys.unique_seq_to_set();
        }
        self.entries.len()
    }

    /// Sets `key` to `value`, replacing an earlier value of the same key; the
    /// entries stay sorted by key.
    pub fn insert(&mut self, key: String, value: String)
        ensures
            final(self)@ == old(self)@.insert(key@, value@),
    {
        proof { use_type_invariant(&*self); }
        let kv = chars_of(key.as_str());
        let ghost old_entries = self.entries@;
        let ghost old_view = self@;
        let mut entries: Vec<(String, String)> = Vec::new();
        std::mem::swap(&mut entries, &mut self.entries);
        assert(entries@ == old_entries);
        let mut p: usize = 0;
        while p < entries.len() && key_less(chars_of(entries[p].0.as_str()).as_slice(), kv.as_slice())
            invariant
                p <= entries@.len(),
                entries@ == old_entries,
                forall|i: int| 0 <= i < p ==> key_lt(#[trigger] entries@[i].0@, kv@),
            decreases entries@.len() - p,
        {
            p = p + 1;
        }
        let replace = p < entries.len() && chars_eq(chars_of(entries[p].0.as_str()).as_slice(), kv.as_slice());
        let ghost after_p = p < old_entries.len() ==> !key_lt(old_entries[p as int].0@, kv@);
        assert(after_p);
        if replace {
            entries.set(p, (key, value));
        } else {
            entries.insert(p, (key, value));
        }
        let ghost ne = entries@;
        proof {
            // the entries stay sorted
            assert forall|i: int, j: int| 0 <= i < j < ne.len() implies key_lt(#[trigger] ne[i].0@, #[trigger] ne[j].0@) by {
                if p < old_entries.len() {
                    lemma_key_lt_order(old_entries[p as int].0@, kv@, kv@);
                    lemma_key_lt_order(kv@, old_entries[p as int].0@, old_entries[p as int].0@);
                }
                if replace {
                    if j == p {
                        assert(key_lt(old_entries[i].0@, kv@));
                    } else if i == p {
                        assert(key_lt(old_entries[p as int].0@, old_entries[j].0@));
                    } else {
                        assert(key_lt(old_entries[i].0@, old_entries[j].0@));
                    }
                } else {
                    if i < p && j == p {
                        assert(key_lt(old_entries[i].0@, kv@));
                    } else if i == p {
                        assert(kv@ != old_entries[p as int].0@);
                        assert(key_lt(kv@, old_entries[p as int].0@));
                        if j - 1 > p {
                            assert(key_lt(old_entries[p as int].0@, old_entries[j - 1].0@));
                            lemma_key_lt_order(kv@, old_entries[p as int].0@, old_entries[j - 1].0@);
                        }
                        assert(ne[j] == old_entries[j - 1]);
                    } else if j < p {
                        assert(key_lt(old_entries[i].0@, old_entries[j].0@));
                    } else if i < p {
                        assert(ne[j] == old_entries[j - 1]);
                        assert(key_lt(old_entries[i].0@, old_entries[j - 1].0@));
                    } else {
                        assert(ne[i] == old_entries[i - 1] && ne[j] == old_entries[j - 1]);
                        assert(key_lt(old_entries[i - 1].0@, old_entries[j - 1].0@));
                    }
                }
            }
            assert(keys_sorted(ne));
            // the map gains (or updates) `key`
            assert(ne[p as int].0@ == kv@ && ne[p as int].1@ == value@);
            lemma_entries_view_at(ne, p as int);
            let target = old_view.insert(kv@, value@);
            assert(old_view == entries_view(old_entries));
            assert forall|k: Seq<char>| #[trigger] entries_view(ne).contains_key(k) == target.contains_key(k)
                && (entries_view(ne).contains_key(k) ==> entries_view(ne)[k] == target[k]) by {
                if k == kv@ {
                    lemma_entries_view_at(ne, p as int);
                } else {
                    if old_view.contains_key(k) {
                        let j0 = choose|j0: int| 0 <= j0 < old_entries.len() && old_entries[j0].0@ == k;
                        lemma_entries_view_at(old_entries, j0);
                        let jn = if replace || j0 < p { j0 } else { j0 + 1 };
                        assert(ne[jn] == old_entries[j0]);
                        lemma_entries_view_at(ne, jn);
                    }
                    if entries_view(ne).contains_key(k) {
                        let jn = choose|jn: int| 0 <= jn < ne.len() && ne[jn].0@ == k;
                        assert(jn != p);
                        let j0 = if replace || jn < p { jn } else { jn - 1 };
                        assert(ne[jn] == old_entries[j0]);
                        assert(old_entries[j0].0@ == k);
                        assert(old_view.contains_key(k));
                    }
                }
            }
            assert(entries_view(ne) =~= old_view.insert(kv@, value@));
        }
        self.entries = entries;
    }

    /// The entries, sorted by key: exactly the pairs of the map.
    pub fn entries(&self) -> (r: &Vec<(String, String)>)
        ensures
            forall|i: int| 0 <= i < r@.len() ==> self@.contains_key(#[trigger] r@[i].0@) && self@[r@[i].0@] == r@[i].1@,
            forall|k: Seq<char>| self@.contains_key(k) ==> exists|i: int| 0 <= i < r@.len() && #[trigger] r@[i].0@ == k,
            keys_sorted(r@),
    {
        proof {
            use_type_invariant(self);
            assert forall|i: int| 0 <= i < self.entries@.len() implies self@.contains_key(#[trigger] self.entries@[i].0@)
                && self@[self.entries@[i].0@] == self.entries@[i].1@ by {
                lemma_entries_view_at(self.entries@, i);
            }
        }
        &self.entries
    }
}

/// The values of one page.
#[derive(Debug)]
pub struct PageValues {
    pub path: String,
    /// id attribute → text (elements with empty text are left out)
    pub values: IdValues,
}

/// The concatenation of the text nodes among `nodes`.
pub open spec fn texts_concat(h: Seq<char>, nodes: Seq<usize>) -> Seq<char>
    decreases nodes.len(),
{
    if nodes.len() == 0 {
        Seq::empty()
    } else {
        texts_concat(h, nodes.drop_last()) + match html_text_node(h, nodes.last()) {
            Some(t) => t,
            None => Seq::empty(),
        }
    }
}

/// The own text of element `n`: its child text nodes only (text of child
/// elements is left out, so nested id elements do not repeat each other), trimmed.
pub open spec fn own_text(h: Seq<char>, n: usize) -> Seq<char> {
    trim_spec(texts_concat(h, html_children(h, n)))
}

/// The text of a list of nodes splits with the list: the text of `a + b` is
/// the text of `a` followed by the text of `b`.
pub proof fn lemma_texts_concat_split(h: Seq<char>, a: Seq<usize>, b: Seq<usize>)
    ensures
        texts_concat(h, a + b) == texts_concat(h, a) + texts_concat(h, b),
    decreases b.len(),
{
    if b.len() == 0 {
        assert(a + b =~= a);
        assert(texts_concat(h, a) + texts_concat(h, b) =~= texts_concat(h, a));
    } else {
        lemma_texts_concat_split(h, a, b.drop_last());
        assert((a + b).drop_last() =~= a + b.drop_last());
        assert((a + b).last() == b.last());
        assert(texts_concat(h, a + b) =~= texts_concat(h, a) + texts_concat(h, b));
    }
}

/// The text of one node is its text when it is a text node, else nothing.
pub proof fn lemma_texts_concat_single(h: Seq<char>, x: usize)
    ensures
        texts_concat(h, seq![x]) == match html_text_node(h, x) {
            Some(t) => t,
            None => Seq::<char>::empty(),
        },
{
    assert(seq![x].drop_last() =~= Seq::<usize>::empty());
    assert(seq![x].last() == x);
    assert(texts_concat(h, seq![x].drop_last()) =~= Seq::<char>::empty());
    assert(texts_concat(h, seq![x]) =~= Seq::<char>::empty() + match html_text_node(h, x) {
        Some(t) => t,
        None => Seq::<char>::empty(),
    });
}

/// An element's own text keeps every child text node that is not blank: the
/// trimmed text of such a node occurs in it, so the element is never left out
/// of the page's values for want of text.
pub proof fn lemma_own_text_keeps_child_text(h: Seq<char>, n: usize, i: int, t: Seq<char>)
    requires
        0 <= i < html_children(h, n).len(),
        html_text_node(h, html_children(h, n)[i]) == Some(t),
        trim_spec(t).len() > 0,
    ensures
        contains_spec(own_text(h, n), trim_spec(t)),
        own_text(h, n).len() > 0,
{
    let cs = html_children(h, n);
    let pre = cs.take(i);
    let one = seq![cs[i]];
    let post = cs.skip(i + 1);
    assert(cs =~= pre + one + post);
    lemma_texts_concat_split(h, pre + one, post);
    lemma_texts_concat_split(h, pre, one);
    lemma_texts_concat_single(h, cs[i]);
    let a = texts_concat(h, pre);
    let b = texts_concat(h, post);
    assert(texts_concat(h, cs) == a + t + b);
    lemma_trim_keeps_inner(a, t, b);
    let w = choose|k: int| crate::text::occurs_at(own_text(h, n), trim_spec(t), k);
    assert(own_text(h, n).len() >= trim_spec(t).len());
}

fn own_text_exec(doc: &HtmlDoc, n: usize) -> (r: Vec<char>)
    ensures
        r@ == own_text(doc@, n),
{
    let cs = doc.children(n);
    let mut acc: Vec<char> = Vec::new();
    let mut i: usize = 0;
    while i < cs.len()
        invariant
            i <= cs@.len(),
            acc@ == texts_concat(doc@, cs@.take(i as int)),
        decreases cs@.len() - i,
    {
        assert(cs@.take(i + 1).drop_last() == cs@.take(i as int));
        match doc.text_node(cs[i]) {
            Some(t) => append_str(&mut acc, t.as_str()),
            None => {},
        }
        proof {
            let e = match html_text_node(doc@, cs@[i as int]) { Some(t) => t, None => Seq::empty() };
            if html_text_node(doc@, cs@[i as int]) is None {
                assert(acc@ == acc@ + e);
            }
        }
        i = i + 1;
    }
    assert(cs@.take(cs@.len() as int) == cs@);
    trim(acc.as_slice())
}

/// The id → text map of a page: for each element with an `id`, in page order,
/// its own text when not empty (a later element replaces an earlier one with
/// the same id).
pub open spec fn id_values_of(h: Seq<char>, ns: Seq<usize>) -> Map<Seq<char>, Seq<char>>
    decreases ns.len(),
{
    if ns.len() == 0 {
        Map::empty()
    } else {
        let m = id_values_of(h, ns.drop_last());
        match html_attr(h, ns.last(), "id"@) {
            Some(id) => if own_text(h, ns.last()).len() > 0 { m.insert(id, own_text(h, ns.last())) } else { m },
            None => m,
        }
    }
}

/// The id → text map of a page (see [`id_values_of`]).
pub open spec fn page_values_spec(h: Seq<char>) -> Map<Seq<char>, Seq<char>> {
    id_values_of(h, select_spec(h, "[id]"@))
}

/// Reads the text of every element with an `id` attribute.
pub fn extract_page_values(path: &str, html: &str) -> (r: PageValues)
    ensures
        r.path@ == path@,
        r.values@ == page_values_spec(html@),
{
    let doc = parse_html(html);
    let ns = doc.select("[id]");
    let mut values = IdValues::new();
    let mut i: usize = 0;
    while i < ns.len()
        invariant
            i <= ns@.len(),
            values@ == id_values_of(doc@, ns@.take(i as int)),
        decreases ns@.len() - i,
    {
        assert(ns@.take(i + 1).drop_last() == ns@.take(i as int));
        match doc.attr(ns[i], "id") {
            Some(id) => {
                let text = own_text_exec(&doc, ns[i]);
                if text.len() > 0 {
                    values.insert(id, string_of(text.as_slice()));
                }
            },
            None => {},
        }
        i = i + 1;
    }
    assert(ns@.take(ns@.len() as int) == ns@);
    PageValues { path: String::from_str(path), values }
}

} // verus!
