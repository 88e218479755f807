//! The parsed form of a StableHLO operation.
use vstd::prelude::*;

use crate::text::str_eq;

verus! {

broadcast use vstd::string::group_string_axioms;

/// The value of an attribute of an operation.
#[derive(Debug, PartialEq)]
pub enum Attr {
    Int(i64),
    IntVec(Vec<usize>),
    Id(String),
    /// A floating-point literal, kept as it is written in the source.
    Float(String),
    DimNumbers { input: Vec<String>, kernel: Vec<String>, output: Vec<String> },
    PadPairs(Vec<(usize, usize)>),
}

/// The view of a list of strings.
pub open spec fn strings_view(v: Seq<String>) -> Seq<Seq<char>> {
    v.map_values(|s: String| s@)
}

/// The mathematical view of an attribute.
pub enum AttrView {
    Int(int),
    IntVec(Seq<usize>),
    Id(Seq<char>),
    Float(Seq<char>),
    DimNumbers { input: Seq<Seq<char>>, kernel: Seq<Seq<char>>, output: Seq<Seq<char>> },
    PadPairs(Seq<(usize, usize)>),
}

impl View for Attr {
    type V = AttrView;

    open spec fn view(&self) -> AttrView {
        match self {
            Attr::Int(i) => AttrView::Int(*i as int),
            Attr::IntVec(v) => AttrView::IntVec(v@),
            Attr::Id(s) => AttrView::Id(s@),
            Attr::Float(s) => AttrView::Float(s@),
            Attr::DimNumbers { input, kernel, output } => AttrView::DimNumbers {
                input: strings_view(input@),
                kernel: strings_view(kernel@),
                output: strings_view(output@),
            },
            Attr::PadPairs(v) => AttrView::PadPairs(v@),
        }
    }
}

/// A map from attribute names to attribute values, kept as a list of entries
/// in which no name occurs twice.
#[derive(Debug)]
pub struct AttrMap {
    entries: Vec<(String, Attr)>,
}

/// No name occurs twice among the entries.
pub open spec fn distinct_keys(e: Seq<(String, Attr)>) -> bool {
    forall|i: int, j: int| 0 <= i < j < e.len() ==> e[i].0@ != e[j].0@
}

/// The index of the entry with name `k`.
pub open spec fn entry_index(e: Seq<(String, Attr)>, k: Seq<char>) -> int {
    choose|i: int| 0 <= i < e.len() && e[i].0@ == k
}

/// The map that a list of entries stands for.
pub open spec fn entries_map(e: Seq<(String, Attr)>) -> Map<Seq<char>, AttrView> {
    Map::new(
        |k: Seq<char>| exists|i: int| 0 <= i < e.len() && e[i].0@ == k,
        |k: Seq<char>| e[entry_index(e, k)].1@,
    )
}

proof fn lemma_entry_index(e: Seq<(String, Attr)>, j: int)
    requires
        distinct_keys(e),
        0 <= j < e.len(),
    ensures
        entry_index(e, e[j].0@) == j,
{
    let k = e[j].0@;
    assert(exists|i: int| 0 <= i < e.len() && e[i].0@ == k);
    let i = entry_index(e, k);
    assert(e[i].0@ == k);
}

impl View for AttrMap {
    type V = Map<Seq<char>, AttrView>;

    closed spec fn view(&self) -> Map<Seq<char>, AttrView> {
        entries_map(self.entries@)
    }
}

impl AttrMap {
    #[verifier::type_invariant]
    spec fn well_formed(self) -> bool {
        distinct_keys(self.entries@)
    }

    /// An empty map.
    pub fn new() -> (r: Self)
        ensures
            r@ == Map::<Seq<char>, AttrView>::empty(),
    {
        let r = AttrMap { entries: Vec::new() };
        assert(r@ =~= Map::<Seq<char>, AttrView>::empty());
        r
    }

    /// The index of the entry named `key`, if any.
    fn position(&self, key: &str) -> (r: Option<usize>)
        ensures
            match r {
                Some(j) => j < self.entries@.len() && self.entries@[j as int].0@ == key@,
                None => forall|i: int|
                    0 <= i < self.entries@.len() ==> self.entries@[i].0@ != key@,
            },
    {
        let mut j: usize = 0;
        while j < self.entries.len()
            invariant
                j <= self.entries@.len(),
                forall|i: int| 0 <= i < j ==> self.entries@[i].0@ != key@,
            decreases self.entries.len() - j,
        {
            if str_eq(self.entries[j].0.as_str(), key) {
                return Some(j);
            }
            j = j + 1;
        }
        None
    }

    /// The value of the attribute named `key`.
    pub fn get(&self, key: &str) -> (r: Option<&Attr>)
        ensures
            match r {
                Some(a) => self@.contains_key(key@) && a@ == self@[key@],
                None => !self@.contains_key(key@),
            },
    {
        proof {
            use_type_invariant(self);
        }
        match self.position(key) {
            Some(j) => {
                proof {
                    lemma_entry_index(self.entries@, j as int);
                }
                Some(&self.entries[j].1)
            },
            None => None,
        }
    }

    /// Sets the attribute named `key` to `value`, replacing any earlier value.
    pub fn insert(&mut self, key: String, value: Attr)
        ensures
            final(self)@ == old(self)@.insert(key@, value@),
    {
        proof {
            use_type_invariant(&*self);
        }
        let ghost e0 = self.entries@;
        let ghost k = key@;
        let ghost v = value@;
        match self.position(key.as_str()) {
            Some(j) => {
                let ghost e1 = e0.update(j as int, (key, value));
                assert(distinct_keys(e1)) by {
                    assert forall|a: int, b: int| 0 <= a < b < e1.len() implies e1[a].0@
                        != e1[b].0@ by {
                        if a != j && b != j {
                            assert(e1[a] == e0[a] && e1[b] == e0[b]);
                        } else if a == j {
                            assert(e1[b] == e0[b]);
                            assert(e0[j as int].0@ != e0[b].0@);
                        } else {
                            assert(e1[a] == e0[a]);
                            assert(e0[a].0@ != e0[j as int].0@);
                        }
                    }
                }
                assert(entries_map(e1) =~= entries_map(e0).insert(k, v)) by {
                    assert forall|q: Seq<char>| #[trigger]
                        entries_map(e1).contains_key(q) == entries_map(e0).insert(
                            k,
                            v,
                        ).contains_key(q) by {
                        if exists|i: int| 0 <= i < e0.len() && e0[i].0@ == q {
                            let i = choose|i: int| 0 <= i < e0.len() && e0[i].0@ == q;
                            if i == j {
                                assert(e1[j as int].0@ == q);
                            } else {
                                assert(e1[i].0@ == q);
                            }
                        }
                        if exists|i: int| 0 <= i < e1.len() && e1[i].0@ == q {
                            let i = choose|i: int| 0 <= i < e1.len() && e1[i].0@ == q;
                            if i != j {
                                assert(e0[i].0@ == q);
                            }
                        }
                    }
                    assert forall|q: Seq<char>| #[trigger]
                        entries_map(e1).contains_key(q) implies entries_map(e1)[q]
                        == entries_map(e0).insert(k, v)[q] by {
                        let i = choose|i: int| 0 <= i < e1.len() && e1[i].0@ == q;
                        lemma_entry_index(e1, i);
                        if i != j {
                            assert(e0[i] == e1[i]);
                            lemma_entry_index(e0, i);
                        }
                    }
                }
                let mut entries: Vec<(String, Attr)> = Vec::new();
                std::mem::swap(&mut entries, &mut self.entries);
                entries.set(j, (key, value));
                assert(entries@ == e1);
                self.entries = entries;
            },
            None => {
                let ghost e1 = e0.push((key, value));
                assert(distinct_keys(e1)) by {
                    assert forall|a: int, b: int| 0 <= a < b < e1.len() implies e1[a].0@
                        != e1[b].0@ by {
                        assert(e1[a] == e0[a]);
                        if b < e0.len() {
                            assert(e1[b] == e0[b]);
                        }
                    }
                }
                assert(entries_map(e1) =~= entries_map(e0).insert(k, v)) by {
                    assert forall|q: Seq<char>| #[trigger]
                        entries_map(e1).contains_key(q) == entries_map(e0).insert(
                            k,
                            v,
                        ).contains_key(q) by {
                        if exists|i: int| 0 <= i < e0.len() && e0[i].0@ == q {
                            let i = choose|i: int| 0 <= i < e0.len() && e0[i].0@ == q;
                            assert(e1[i].0@ == q);
                        }
                        if q == k {
                            assert(e1[e0.len() as int].0@ == q);
                        }
                    }
                    assert forall|q: Seq<char>| #[trigger]
                        entries_map(e1).contains_key(q) implies entries_map(e1)[q]
                        == entries_map(e0).insert(k, v)[q] by {
                        let i = choose|i: int| 0 <= i < e1.len() && e1[i].0@ == q;
                        lemma_entry_index(e1, i);
                        if i < e0.len() {
                            assert(e0[i] == e1[i]);
                            lemma_entry_index(e0, i);
                        }
                    }
                }
                let mut entries: Vec<(String, Attr)> = Vec::new();
                std::mem::swap(&mut entries, &mut self.entries);
                entries.push((key, value));
                assert(entries@ == e1);
                self.entries = entries;
            },
        }
    }

    /// The number of attributes.
    pub fn len(&self) -> (r: usize)
        ensures
            r == self@.len(),
    {
        proof {
            use_type_invariant(self);
            lemma_entries_map_len(self.entries@);
        }
        self.entries.len()
    }
}

/// A read of an attribute gives back what the last write of that name wrote,
/// and a write leaves the other names as they were.
pub proof fn law_attr_read_after_write(
    m: Map<Seq<char>, AttrView>,
    k: Seq<char>,
    v: AttrView,
    other: Seq<char>,
)
    ensures
        m.insert(k, v).contains_key(k),
        m.insert(k, v)[k] == v,
        other != k ==> m.insert(k, v).contains_key(other) == m.contains_key(other),
        other != k && m.contains_key(other) ==> m.insert(k, v)[other] == m[other],
{
}

proof fn lemma_entries_map_len(e: Seq<(String, Attr)>)
    requires
        distinct_keys(e),
    ensures
        entries_map(e).len() == e.len(),
        entries_map(e).dom().finite(),
    decreases e.len(),
{
    if e.len() == 0 {
        assert(entries_map(e).dom() =~= Set::<Seq<char>>::empty());
    } else {
        let p = e.drop_last();
        assert(distinct_keys(p)) by {
            assert forall|a: int, b: int| 0 <= a < b < p.len() implies p[a].0@ != p[b].0@ by {
                assert(p[a] == e[a] && p[b] == e[b]);
            }
        }
        lemma_entries_map_len(p);
        let k = e.last().0@;
        assert(entries_map(e).dom() =~= entries_map(p).dom().insert(k)) by {
            assert forall|q: Seq<char>| #[trigger] entries_map(e).dom().contains(q)
                == entries_map(p).dom().insert(k).contains(q) by {
                if exists|i: int| 0 <= i < e.len() && e[i].0@ == q {
                    let i = choose|i: int| 0 <= i < e.len() && e[i].0@ == q;
                    if i < p.len() {
                        assert(p[i] == e[i]);
                    }
                }
                if exists|i: int| 0 <= i < p.len() && p[i].0@ == q {
                    let i = choose|i: int| 0 <= i < p.len() && p[i].0@ == q;
                    assert(e[i] == p[i]);
                }
                if q == k {
                    assert(e[e.len() - 1].0@ == q);
                }
            }
        }
        assert(!entries_map(p).dom().contains(k)) by {
            if exists|i: int| 0 <= i < p.len() && p[i].0@ == k {
                let i = choose|i: int| 0 <= i < p.len() && p[i].0@ == k;
                assert(e[i] == p[i]);
            }
        }
    }
}

/// One parsed StableHLO operation, or a `return`.
#[derive(Debug)]
pub struct Operation {
    pub result_name: String,
    pub name: String,
    pub operands: Vec<String>,
    pub attributes: AttrMap,
    pub result_type_src: String,
}

/// The mathematical view of an operation.
pub struct OperationView {
    pub result_name: Seq<char>,
    pub name: Seq<char>,
    pub operands: Seq<Seq<char>>,
    pub attributes: Map<Seq<char>, AttrView>,
    pub result_type_src: Seq<char>,
}

impl View for Operation {
    type V = OperationView;

    open spec fn view(&self) -> OperationView {
        OperationView {
            result_name: self.result_name@,
            name: self.name@,
            operands: strings_view(self.operands@),
            attributes: self.attributes@,
            result_type_src: self.result_type_src@,
        }
    }
}

} // verus!
