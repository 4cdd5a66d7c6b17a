//! Global symbol lookup index.
//!
//! Three lookups over one list of symbols: by exact qualified name, by
//! simple name (also under its snake/camel variant), and by
//! `(file, name)` within one file. The first registration of a
//! qualified name wins, so the index does not depend on load order
//! beyond that.

use vstd::prelude::*;

use crate::chars::{to_lowercase, to_uppercase, unicode_lower, unicode_upper};
use crate::text::{
    chars_eq, from_chars, is_ascii_lower_spec, is_ascii_upper_spec, push_all, push_string,
    str_eq_chars, str_to_string, strings, to_chars,
};
use super::{kind_label, SymbolKind};
use crate::pattern::{filter_map, lemma_filter_map_step};

verus! {

/// One symbol: qualified name, simple name, declaring file and kind.
pub struct SymbolEntry {
    pub qualified_name: String,
    pub name: String,
    pub source_file: String,
    pub kind: SymbolKind,
}

pub type EntryView = (Seq<char>, Seq<char>, Seq<char>, SymbolKind);

impl View for SymbolEntry {
    type V = EntryView;

    open spec fn view(&self) -> EntryView {
        (self.qualified_name@, self.name@, self.source_file@, self.kind)
    }
}

impl SymbolEntry {
    /// A copy with the same strings and kind.
    pub fn duplicate(&self) -> (r: SymbolEntry)
        ensures
            r@ == self@,
    {
        SymbolEntry {
            qualified_name: str_to_string(self.qualified_name.as_str()),
            name: str_to_string(self.name.as_str()),
            source_file: str_to_string(self.source_file.as_str()),
            kind: self.kind,
        }
    }
}

// ── name variants ───────────────────────────────────────────────────

/// `snake_case` to `camelCase`: each `_` is dropped and the character
/// after it upper-cased.
pub open spec fn snake_to_camel_spec(s: Seq<char>) -> Seq<char>
    decreases s.len(),
{
    if s.len() == 0 {
        Seq::empty()
    } else {
        let c = s.last();
        let after_underscore = s.len() >= 2 && s[s.len() - 2] == '_';
        snake_to_camel_spec(s.drop_last()) + if c == '_' {
            Seq::empty()
        } else if after_underscore {
            unicode_upper(c)
        } else {
            seq![c]
        }
    }
}

/// `camelCase` to `snake_case`: an `_` before every ASCII uppercase
/// letter but the first character, everything lower-cased.
pub open spec fn camel_to_snake_spec(s: Seq<char>) -> Seq<char>
    decreases s.len(),
{
    if s.len() == 0 {
        Seq::empty()
    } else {
        let c = s.last();
        camel_to_snake_spec(s.drop_last()) + if s.len() > 1 && is_ascii_upper_spec(c) {
            seq!['_']
        } else {
            Seq::empty()
        } + unicode_lower(c)
    }
}

/// An ASCII lowercase letter directly followed by an ASCII uppercase one.
pub open spec fn has_upper_after_lower_spec(s: Seq<char>) -> bool {
    exists|i: int| 0 <= i < s.len() - 1 && is_ascii_lower_spec(#[trigger] s[i]) && is_ascii_upper_spec(s[i + 1])
}

/// The alternative spellings a name is also found under.
pub open spec fn name_variants_spec(name: Seq<char>) -> Seq<Seq<char>> {
    (if name.contains('_') {
        seq![snake_to_camel_spec(name)]
    } else {
        Seq::empty()
    }) + (if has_upper_after_lower_spec(name) {
        seq![camel_to_snake_spec(name)]
    } else {
        Seq::empty()
    })
}

pub fn snake_to_camel(s: &str) -> (r: String)
    ensures
        r@ == snake_to_camel_spec(s@),
{
    let c = to_chars(s);
    let mut out: Vec<char> = Vec::new();
    let mut upper_next = false;
    let mut i: usize = 0;
    assert(c@.take(0) =~= Seq::<char>::empty());
    while i < c.len()
        invariant
            i <= c@.len(),
            c@ == s@,
            out@ == snake_to_camel_spec(c@.take(i as int)),
            upper_next == (i > 0 && c@[i - 1] == '_'),
        decreases c@.len() - i,
    {
        let ch = c[i];
        let ghost t = c@.take(i + 1);
        assert(t.drop_last() =~= c@.take(i as int));
        assert(t.last() == ch);
        if ch == '_' {
            upper_next = true;
            assert(out@ =~= snake_to_camel_spec(t));
        } else if upper_next {
            let u = to_uppercase(ch);
            push_all(&mut out, u.as_slice());
            upper_next = false;
            assert(t[t.len() - 2] == c@[i - 1]);
        } else {
            out.push(ch);
            upper_next = false;
            if i >= 1 {
                assert(t[t.len() - 2] == c@[i - 1]);
            }
            assert(out@ =~= snake_to_camel_spec(t));
        }
        i += 1;
    }
    assert(c@.take(c@.len() as int) =~= c@);
    from_chars(out.as_slice())
}

pub fn camel_to_snake(s: &str) -> (r: String)
    ensures
        r@ == camel_to_snake_spec(s@),
{
    let c = to_chars(s);
    let mut out: Vec<char> = Vec::new();
    let mut i: usize = 0;
    assert(c@.take(0) =~= Seq::<char>::empty());
    while i < c.len()
        invariant
            i <= c@.len(),
            c@ == s@,
            out@ == camel_to_snake_spec(c@.take(i as int)),
        decreases c@.len() - i,
    {
        let ch = c[i];
        let ghost t = c@.take(i + 1);
        assert(t.drop_last() =~= c@.take(i as int));
        assert(t.last() == ch);
        let ghost before = out@;
        if i > 0 && 'A' <= ch && ch <= 'Z' {
            out.push('_');
        }
        let l = to_lowercase(ch);
        push_all(&mut out, l.as_slice());
        assert(out@ =~= camel_to_snake_spec(t));
        i += 1;
    }
    assert(c@.take(c@.len() as int) =~= c@);
    from_chars(out.as_slice())
}

pub fn has_upper_after_lower(s: &str) -> (b: bool)
    ensures
        b == has_upper_after_lower_spec(s@),
{
    let c = to_chars(s);
    let clen = c.len();
    if clen < 2 {
        return false;
    }
    let mut i: usize = 0;
    while i < clen - 1
        invariant
            c@ == s@,
            clen == c@.len(),
            clen >= 2,
            forall|k: int| 0 <= k < i && k < c@.len() - 1 ==> !(is_ascii_lower_spec(#[trigger] c@[k]) && is_ascii_upper_spec(c@[k + 1])),
        decreases c@.len() - i,
    {
        if 'a' <= c[i] && c[i] <= 'z' && 'A' <= c[i + 1] && c[i + 1] <= 'Z' {
            return true;
        }
        i += 1;
    }
    false
}

fn contains_underscore(s: &str) -> (b: bool)
    ensures
        b == s@.contains('_'),
{
    let c = to_chars(s);
    let mut i: usize = 0;
    while i < c.len()
        invariant
            i <= c@.len(),
            c@ == s@,
            forall|k: int| 0 <= k < i ==> c@[k] != '_',
        decreases c@.len() - i,
    {
        if c[i] == '_' {
            assert(s@[i as int] == '_');
            return true;
        }
        i += 1;
    }
    false
}

/// Snake and camel variants of a simple name; empty when the name has
/// neither an `_` nor a lower-to-upper transition.
pub fn name_variants(name: &str) -> (r: Vec<String>)
    ensures
        strings(r@) == name_variants_spec(name@),
{
    let mut out: Vec<String> = Vec::new();
    if contains_underscore(name) {
        push_string(&mut out, snake_to_camel(name));
    }
    if has_upper_after_lower(name) {
        push_string(&mut out, camel_to_snake(name));
    }
    assert(strings(out@) =~= name_variants_spec(name@));
    out
}

// ── the table ───────────────────────────────────────────────────────

/// Queryable symbol index.
pub struct SymbolTable {
    entries: Vec<SymbolEntry>,
    /// The variants of each entry's name, in step with `entries`.
    variants: Vec<Vec<String>>,
}

impl View for SymbolTable {
    type V = Seq<EntryView>;

    closed spec fn view(&self) -> Seq<EntryView> {
        self.entries@.map_values(|e: SymbolEntry| e@)
    }
}

/// Index of the symbol with qualified name `q`, scanning from the front.
pub open spec fn find_qname(t: Seq<EntryView>, q: Seq<char>) -> Option<int> {
    if exists|i: int| 0 <= i < t.len() && t[i].0 == q {
        Some(choose|i: int| 0 <= i < t.len() && t[i].0 == q)
    } else {
        None
    }
}

/// No qualified name occurs twice.
pub open spec fn unique_qnames(t: Seq<EntryView>) -> bool {
    forall|i: int, j: int| 0 <= i < t.len() && 0 <= j < t.len() && i != j ==> t[i].0 != t[j].0
}

/// The last symbol declared in `file` under `name`.
pub open spec fn last_in_file(t: Seq<EntryView>, file: Seq<char>, name: Seq<char>, n: int) -> Option<int>
    decreases n,
{
    if n <= 0 {
        None
    } else if t[n - 1].2 == file && t[n - 1].1 == name {
        Some(n - 1)
    } else {
        last_in_file(t, file, name, n - 1)
    }
}

/// A symbol is found under `n` by its name or one of its variants.
pub open spec fn simple_match(e: EntryView, n: Seq<char>) -> bool {
    e.1 == n || name_variants_spec(e.1).contains(n)
}

/// Every symbol found under simple name `n`, in registration order.
pub open spec fn simple_hits(t: Seq<EntryView>, n: Seq<char>) -> Seq<EntryView> {
    filter_map(t, |e: EntryView| if simple_match(e, n) { Some(e) } else { None })
}

impl SymbolTable {
    pub closed spec fn wf(&self) -> bool {
        &&& unique_qnames(self@)
        &&& self.variants@.len() == self.entries@.len()
        &&& forall|i: int|
            0 <= i < self.entries@.len() ==> strings(#[trigger] self.variants@[i]@)
                == name_variants_spec(self.entries@[i].name@)
    }

    pub fn new() -> (t: SymbolTable)
        ensures
            t.wf(),
            t@ == Seq::<EntryView>::empty(),
    {
        let t = SymbolTable { entries: Vec::new(), variants: Vec::new() };
        assert(t@ =~= Seq::<EntryView>::empty());
        t
    }

    /// Number of distinct symbols.
    pub fn len(&self) -> (n: usize)
        ensures
            n == self@.len(),
    {
        self.entries.len()
    }

    pub fn is_empty(&self) -> (b: bool)
        ensures
            b == (self@.len() == 0),
    {
        self.entries.len() == 0
    }

    fn index_of_qname(&self, q: &[char]) -> (r: Option<usize>)
        ensures
            match r {
                Some(i) => i < self@.len() && self@[i as int].0 == q@,
                None => forall|i: int| 0 <= i < self@.len() ==> self@[i].0 != q@,
            },
    {
        let mut i: usize = 0;
        while i < self.entries.len()
            invariant
                i <= self.entries@.len(),
                forall|k: int| 0 <= k < i ==> self@[k].0 != q@,
            decreases self.entries@.len() - i,
        {
            if str_eq_chars(self.entries[i].qualified_name.as_str(), q) {
                return Some(i);
            }
            i += 1;
        }
        None
    }

    /// Register a symbol. A qualified name already present keeps its
    /// first registration and the call changes nothing.
    pub fn insert(&mut self, entry: SymbolEntry)
        requires
            old(self).wf(),
        ensures
            final(self).wf(),
            find_qname(old(self)@, entry.qualified_name@) is Some ==> final(self)@ == old(self)@,
            find_qname(old(self)@, entry.qualified_name@) is None ==> final(self)@ == old(self)@.push(
                entry@,
            ),
    {
        let q = to_chars(entry.qualified_name.as_str());
        match self.index_of_qname(q.as_slice()) {
            Some(i) => {
                assert(find_qname(self@, entry.qualified_name@) is Some);
            },
            None => {
                assert(find_qname(self@, entry.qualified_name@) is None);
                let vs = name_variants(entry.name.as_str());
                let ghost before = self@;
                let ghost entries_before = self.entries@;
                self.variants.push(vs);
                self.entries.push(entry);
                assert(self@ =~= before.push(entry@));
                assert forall|i: int| 0 <= i < self.entries@.len() implies strings(
                    #[trigger] self.variants@[i]@,
                ) == name_variants_spec(self.entries@[i].name@) by {
                    if i < entries_before.len() {
                        assert(self.entries@[i] == entries_before[i]);
                    }
                }
            },
        }
    }

    /// The symbol with this exact qualified name.
    pub fn find_exact(&self, qname: &str) -> (r: Option<&SymbolEntry>)
        requires
            self.wf(),
        ensures
            match r {
                Some(e) => find_qname(self@, qname@) matches Some(i) && self@[i] == e@,
                None => find_qname(self@, qname@) is None,
            },
    {
        let q = to_chars(qname);
        match self.index_of_qname(q.as_slice()) {
            Some(i) => {
                let ghost j = choose|j: int| 0 <= j < self@.len() && self@[j].0 == qname@;
                assert(self@[j].0 == self@[i as int].0);
                Some(&self.entries[i])
            },
            None => None,
        }
    }

    /// Every symbol found under a simple name, in registration order.
    pub fn find_by_simple_name(&self, name: &str) -> (r: Vec<SymbolEntry>)
        requires
            self.wf(),
        ensures
            r@.map_values(|e: SymbolEntry| e@) == simple_hits(self@, name@),
    {
        let n = to_chars(name);
        let ghost pred = |e: EntryView| if simple_match(e, name@) { Some(e) } else { None };
        let mut out: Vec<SymbolEntry> = Vec::new();
        let mut i: usize = 0;
        while i < self.entries.len()
            invariant
                i <= self.entries@.len(),
                self.wf(),
                n@ == name@,
                pred == (|e: EntryView| if simple_match(e, name@) { Some(e) } else { None }),
                out@.map_values(|e: SymbolEntry| e@) == filter_map(self@.take(i as int), pred),
            decreases self.entries@.len() - i,
        {
            let e = &self.entries[i];
            let vs = &self.variants[i];
            let mut hit = str_eq_chars(e.name.as_str(), n.as_slice());
            let mut k: usize = 0;
            while k < vs.len()
                invariant
                    k <= vs@.len(),
                    n@ == name@,
                    hit == (e.name@ == name@ || strings(vs@).take(k as int).contains(name@)),
                decreases vs@.len() - k,
            {
                if str_eq_chars(vs[k].as_str(), n.as_slice()) {
                    hit = true;
                }
                proof {
                    let a = strings(vs@).take(k as int);
                    let b = a.push(vs@[k as int]@);
                    assert(strings(vs@).take(k + 1) =~= b);
                    assert(b.contains(name@) <==> (a.contains(name@) || vs@[k as int]@ == name@)) by {
                        if b.contains(name@) {
                            let j = choose|j: int| 0 <= j < b.len() && b[j] == name@;
                            if j < a.len() {
                                assert(a[j] == b[j]);
                            }
                        }
                        if a.contains(name@) {
                            let j = choose|j: int| 0 <= j < a.len() && a[j] == name@;
                            assert(b[j] == a[j]);
                        }
                        if vs@[k as int]@ == name@ {
                            assert(b[a.len() as int] == name@);
                        }
                    }
                }
                k += 1;
            }
            assert(strings(vs@).take(vs@.len() as int) =~= strings(vs@));
            assert(self@[i as int] == e@);
            proof {
                lemma_filter_map_step(self@, i as int, pred);
            }
            if hit {
                let d = e.duplicate();
                let ghost before = out@;
                out.push(d);
                assert(out@.map_values(|e: SymbolEntry| e@) =~= before.map_values(
                    |e: SymbolEntry| e@,
                ).push(e@));
            }
            i += 1;
        }
        assert(self@.take(self@.len() as int) =~= self@);
        out
    }

    /// The symbol declared in `source_file` under `name` (the last one
    /// registered there).
    pub fn find_in_file(&self, source_file: &str, name: &str) -> (r: Option<&SymbolEntry>)
        ensures
            match r {
                Some(e) => last_in_file(self@, source_file@, name@, self@.len() as int) matches Some(
                    i,
                ) && self@[i] == e@,
                None => last_in_file(self@, source_file@, name@, self@.len() as int) is None,
            },
    {
        let f = to_chars(source_file);
        let n = to_chars(name);
        let mut k = self.entries.len();
        while k > 0
            invariant
                k <= self.entries@.len(),
                f@ == source_file@,
                n@ == name@,
                last_in_file(self@, source_file@, name@, self@.len() as int) == last_in_file(
                    self@,
                    source_file@,
                    name@,
                    k as int,
                ),
            decreases k,
        {
            let e = &self.entries[k - 1];
            assert(self@[k - 1] == e@);
            if str_eq_chars(e.source_file.as_str(), f.as_slice()) && str_eq_chars(
                e.name.as_str(),
                n.as_slice(),
            ) {
                return Some(e);
            }
            k -= 1;
        }
        None
    }
}

impl Default for SymbolTable {
    fn default() -> (t: SymbolTable)
        ensures
            t.wf(),
            t@ == Seq::<EntryView>::empty(),
    {
        SymbolTable::new()
    }
}

/// Symbol rows of one label, as read from the graph.
pub struct SymbolRow {
    pub qualified_name: String,
    pub name: String,
    pub source_file: String,
}

/// The table the rows build when registered label by label, in order.
pub open spec fn loaded(t: Seq<EntryView>, rows: Seq<(Seq<char>, Seq<char>, Seq<char>, SymbolKind)>) -> Seq<EntryView>
    decreases rows.len(),
{
    if rows.len() == 0 {
        t
    } else {
        let prev = loaded(t, rows.drop_last());
        if find_qname(prev, rows.last().0) is Some {
            prev
        } else {
            prev.push(rows.last())
        }
    }
}

impl SymbolTable {
    /// Register rows of one kind, in order.
    pub fn insert_rows(&mut self, kind: SymbolKind, rows: &Vec<SymbolRow>)
        requires
            old(self).wf(),
        ensures
            final(self).wf(),
            final(self)@ == loaded(
                old(self)@,
                rows@.map_values(
                    |r: SymbolRow| (r.qualified_name@, r.name@, r.source_file@, kind),
                ),
            ),
    {
        let ghost rv = rows@.map_values(
            |r: SymbolRow| (r.qualified_name@, r.name@, r.source_file@, kind),
        );
        let ghost start = self@;
        let mut i: usize = 0;
        while i < rows.len()
            invariant
                i <= rows@.len(),
                self.wf(),
                rv == rows@.map_values(
                    |r: SymbolRow| (r.qualified_name@, r.name@, r.source_file@, kind),
                ),
                self@ == loaded(start, rv.take(i as int)),
            decreases rows@.len() - i,
        {
            let r = &rows[i];
            let e = SymbolEntry {
                qualified_name: str_to_string(r.qualified_name.as_str()),
                name: str_to_string(r.name.as_str()),
                source_file: str_to_string(r.source_file.as_str()),
                kind,
            };
            assert(rv.take(i + 1).drop_last() =~= rv.take(i as int));
            assert(rv.take(i + 1).last() == e@);
            self.insert(e);
            i += 1;
        }
        assert(rv.take(rows@.len() as int) =~= rv);
    }
}

/// A symbol registered under a new qualified name is what an exact
/// lookup of that name finds; registering a name that is present
/// changes nothing, so the first registration is still found.
pub proof fn law_inserted_symbol_found(t: Seq<EntryView>, e: EntryView)
    requires
        unique_qnames(t),
    ensures
        find_qname(t, e.0) is None ==> (find_qname(t.push(e), e.0) == Some(t.len() as int) && t.push(
            e,
        )[t.len() as int] == e && unique_qnames(t.push(e))),
        find_qname(t, e.0) matches Some(i) ==> t[i].0 == e.0,
{
    if find_qname(t, e.0) is None {
        let u = t.push(e);
        assert(u[t.len() as int].0 == e.0);
        let j = choose|j: int| 0 <= j < u.len() && u[j].0 == e.0;
        if j < t.len() {
            assert(t[j].0 == e.0);
        }
    }
}

} // verus!
